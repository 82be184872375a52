//! A set of slots, each free or allocated, with constant-time allocation and
//! freeing: one bit per slot in 64-slot groups, and a stack of the groups that
//! have a free slot.
use vstd::prelude::*;
use vstd::std_specs::bits::{axiom_u64_trailing_zeros, u64_trailing_zeros};

verus! {

/// Whether bit `j` of `w` is set.
pub open spec fn bit(w: u64, j: u64) -> bool {
    (w >> j) & 1u64 == 1u64
}

/// Clearing bit `k` leaves the other bits.
proof fn lemma_clear_bit(w: u64, k: u64, j: u64)
    by (bit_vector)
    requires
        k < 64,
        j < 64,
    ensures
        ((w & !(1u64 << k)) >> j) & 1u64 == 1u64 <==> ((w >> j) & 1u64 == 1u64 && j != k),
{
}

/// Setting bit `k` leaves the other bits.
proof fn lemma_set_bit(w: u64, k: u64, j: u64)
    by (bit_vector)
    requires
        k < 64,
        j < 64,
    ensures
        ((w | (1u64 << k)) >> j) & 1u64 == 1u64 <==> ((w >> j) & 1u64 == 1u64 || j == k),
{
}

/// A word with no bit set is zero.
proof fn lemma_zero_bits(w: u64, j: u64)
    by (bit_vector)
    requires
        w == 0,
    ensures
        (w >> j) & 1u64 == 0u64,
{
}

/// Keeps track of a set of slots, some of which are free and some allocated.
/// Finding and allocating a free slot, and freeing an allocated one, take
/// constant time.
pub struct FreeSet {
    /// Bit `i % 64` of group `i / 64` is set when slot `i` is free
    pub bitmap: Vec<u64>,
    /// The groups with a free slot, each once
    pub queue: Vec<u32>,
}

impl FreeSet {
    /// Whether slot `i` is free.
    pub open spec fn is_free(&self, i: u32) -> bool {
        &&& (i / 64) < self.bitmap@.len()
        &&& bit(self.bitmap@[(i / 64) as int], (i % 64) as u64)
    }

    /// The queue holds exactly the groups with a free slot, each once.
    pub open spec fn wf(&self) -> bool {
        &&& self.bitmap@.len() <= u32::MAX / 64 + 1
        &&& forall|a: int, b: int| 0 <= a < b < self.queue@.len() ==> self.queue@[a] != self.queue@[b]
        &&& forall|a: int| 0 <= a < self.queue@.len() ==> (#[trigger] self.queue@[a]) < self.bitmap@.len()
        &&& forall|g: int| 0 <= g < self.bitmap@.len() ==> (#[trigger] self.bitmap@[g] != 0 <==> self.queue@.contains(g as u32))
    }

    /// A set of `count` slots (rounded up to a whole group), all allocated.
    pub fn new_all_allocated(count: u32) -> (r: Self)
        ensures
            r.wf(),
            r.bitmap@.len() == (count as int + 63) / 64,
            forall|i: u32| !(#[trigger] r.is_free(i)),
    {
        let group_count: u32 = count / 64 + if count % 64 == 0 { 0 } else { 1 };
        let mut bitmap: Vec<u64> = Vec::new();
        let mut k: u32 = 0;
        while k < group_count
            invariant
                k <= group_count,
                group_count == (count as int + 63) / 64,
                bitmap@.len() == k,
                forall|g: int| 0 <= g < bitmap@.len() ==> #[trigger] bitmap@[g] == 0,
            decreases group_count - k,
        {
            bitmap.push(0);
            k = k + 1;
        }
        let r = FreeSet { bitmap, queue: Vec::new() };
        proof {
            assert forall|i: u32| !(#[trigger] r.is_free(i)) by {
                if (i / 64) < r.bitmap@.len() {
                    lemma_zero_bits(r.bitmap@[(i / 64) as int], (i % 64) as u64);
                }
            }
        }
        r
    }

    /// Allocate a free slot: the lowest free one of the group last added to
    /// the queue. `None` when no slot is free.
    pub fn allocate(&mut self) -> (r: Option<u32>)
        requires
            old(self).wf(),
        ensures
            final(self).wf(),
            final(self).bitmap@.len() == old(self).bitmap@.len(),
            match r {
                None => *final(self) == *old(self) && forall|i: u32| !(#[trigger] old(self).is_free(i)),
                Some(i) => {
                    &&& old(self).is_free(i)
                    &&& !final(self).is_free(i)
                    &&& forall|j: u32| j != i ==> #[trigger] final(self).is_free(j) == old(self).is_free(j)
                    &&& old(self).queue@.len() > 0
                    &&& i == old(self).queue@.last() * 64 + u64_trailing_zeros(old(self).bitmap@[old(self).queue@.last() as int])
                },
            },
    {
        let ghost old_self = *self;
        if self.queue.len() == 0 {
            proof {
                assert forall|i: u32| !(#[trigger] old_self.is_free(i)) by {
                    if (i / 64) < old_self.bitmap@.len() {
                        let g = (i / 64) as int;
                        if old_self.bitmap@[g] != 0 {
                            assert(old_self.queue@.contains(g as u32));
                        }
                        lemma_zero_bits(old_self.bitmap@[g], (i % 64) as u64);
                    }
                }
            }
            return None;
        }
        let group_index = self.queue.pop().unwrap();
        proof {
            assert(old_self.queue@.last() == group_index);
            assert(self.queue@ == old_self.queue@.drop_last());
        }
        let gi = group_index as usize;
        let group = self.bitmap[gi];
        proof {
            assert(old_self.queue@.contains(group_index));
            assert(group != 0);
            axiom_u64_trailing_zeros(group);
        }
        let index_in_group = group.trailing_zeros();
        let cleared = group & !(1u64 << index_in_group);
        self.bitmap.set(gi, cleared);
        if cleared != 0 {
            // the group still has a free slot: back on the queue
            self.queue.push(group_index);
        }
        let i = group_index * 64 + index_in_group;
        proof {
            let k = index_in_group as u64;
            assert(bit(group, k));
            assert(i / 64 == group_index && i % 64 == index_in_group);
            assert forall|j: u32| j != i implies #[trigger] self.is_free(j) == old_self.is_free(j) by {
                if (j / 64) as int == gi as int {
                    lemma_clear_bit(group, k, (j % 64) as u64);
                }
            }
            lemma_clear_bit(group, k, k);
            // queue invariants
            assert forall|a: int, b: int| 0 <= a < b < self.queue@.len() implies self.queue@[a] != self.queue@[b] by {
                if b == self.queue@.len() - 1 && cleared != 0 {
                    assert(self.queue@[a] == old_self.queue@[a]);
                } else {
                    assert(self.queue@[a] == old_self.queue@[a] && self.queue@[b] == old_self.queue@[b]);
                }
            }
            assert forall|a: int| 0 <= a < self.queue@.len() implies (#[trigger] self.queue@[a]) < self.bitmap@.len() by {
                if !(a == self.queue@.len() - 1 && cleared != 0) {
                    assert(self.queue@[a] == old_self.queue@[a]);
                }
            }
            assert forall|g: int| 0 <= g < self.bitmap@.len() implies (#[trigger] self.bitmap@[g] != 0 <==> self.queue@.contains(
                g as u32,
            )) by {
                if g == gi as int {
                    if cleared != 0 {
                        assert(self.queue@[self.queue@.len() - 1] == g as u32);
                    } else {
                        if self.queue@.contains(g as u32) {
                            let a = choose|a: int| 0 <= a < self.queue@.len() && self.queue@[a] == g as u32;
                            assert(old_self.queue@[a] == g as u32);
                            assert(old_self.queue@[old_self.queue@.len() - 1] == g as u32);
                        }
                    }
                } else {
                    assert(self.bitmap@[g] == old_self.bitmap@[g]);
                    if old_self.queue@.contains(g as u32) {
                        let a = choose|a: int| 0 <= a < old_self.queue@.len() && old_self.queue@[a] == g as u32;
                        assert(a != old_self.queue@.len() - 1);
                        assert(self.queue@[a] == g as u32);
                    }
                    if self.queue@.contains(g as u32) {
                        let a = choose|a: int| 0 <= a < self.queue@.len() && self.queue@[a] == g as u32;
                        if !(a == self.queue@.len() - 1 && cleared != 0) {
                            assert(old_self.queue@[a] == g as u32);
                        }
                    }
                }
            }
        }
        Some(i)
    }

    /// Free slot `index`, which must be allocated.
    pub fn free(&mut self, index: u32)
        requires
            old(self).wf(),
            (index / 64) < old(self).bitmap@.len(),
            !old(self).is_free(index),
        ensures
            final(self).wf(),
            final(self).bitmap@.len() == old(self).bitmap@.len(),
            final(self).is_free(index),
            forall|j: u32| j != index ==> #[trigger] final(self).is_free(j) == old(self).is_free(j),
    {
        let ghost old_self = *self;
        let group_index = index / 64;
        let index_in_group = index % 64;
        let gi = group_index as usize;
        let group = self.bitmap[gi];
        let add = group == 0;
        let set = group | (1u64 << index_in_group);
        self.bitmap.set(gi, set);
        if add {
            self.queue.push(group_index);
        }
        proof {
            let k = index_in_group as u64;
            lemma_set_bit(group, k, k);
            assert(set != 0) by {
                if set == 0 {
                    lemma_zero_bits(set, k);
                }
            }
            assert forall|j: u32| j != index implies #[trigger] self.is_free(j) == old_self.is_free(j) by {
                if (j / 64) as int == gi as int {
                    lemma_set_bit(group, k, (j % 64) as u64);
                }
            }
            assert forall|a: int, b: int| 0 <= a < b < self.queue@.len() implies self.queue@[a] != self.queue@[b] by {
                if b == self.queue@.len() - 1 && add {
                    assert(self.queue@[a] == old_self.queue@[a]);
                    assert(!old_self.queue@.contains(group_index));
                } else {
                    assert(self.queue@[a] == old_self.queue@[a] && self.queue@[b] == old_self.queue@[b]);
                }
            }
            assert forall|a: int| 0 <= a < self.queue@.len() implies (#[trigger] self.queue@[a]) < self.bitmap@.len() by {
                if !(a == self.queue@.len() - 1 && add) {
                    assert(self.queue@[a] == old_self.queue@[a]);
                }
            }
            assert forall|g: int| 0 <= g < self.bitmap@.len() implies (#[trigger] self.bitmap@[g] != 0 <==> self.queue@.contains(
                g as u32,
            )) by {
                if g == gi as int {
                    if add {
                        assert(self.queue@[self.queue@.len() - 1] == g as u32);
                    } else {
                        assert(old_self.queue@.contains(g as u32));
                        let a = choose|a: int| 0 <= a < old_self.queue@.len() && old_self.queue@[a] == g as u32;
                        assert(self.queue@[a] == g as u32);
                    }
                } else {
                    assert(self.bitmap@[g] == old_self.bitmap@[g]);
                    if old_self.queue@.contains(g as u32) {
                        let a = choose|a: int| 0 <= a < old_self.queue@.len() && old_self.queue@[a] == g as u32;
                        assert(self.queue@[a] == g as u32);
                    }
                    if self.queue@.contains(g as u32) {
                        let a = choose|a: int| 0 <= a < self.queue@.len() && self.queue@[a] == g as u32;
                        if !(a == self.queue@.len() - 1 && add) {
                            assert(old_self.queue@[a] == g as u32);
                        }
                    }
                }
            }
        }
    }
}

} // verus!
