//! Registering a new partition in the partition table of a device.
use crate::block::block_core::{writable, BlockManager, BlockOp, BlockSector, BlockType, BLOCK_SECTOR_SIZE};
use crate::block::block_error::BlockError;
use crate::block::partitions::partition_core::{
    lemma_table_bytes_roundtrip, spec_chs_of, spec_entry_from_bytes, table_parsed_from, PartitionTable,
    PartitionTableEntry,
};
use vstd::prelude::*;

verus! {

/// The four entries that the partition table in sector `b` lists.
pub open spec fn spec_table_entries(b: Seq<u8>) -> Seq<PartitionTableEntry> {
    Seq::new(4, |i: int| spec_entry_from_bytes(b.subrange(446 + 16 * i, 462 + 16 * i)))
}

/// Whether entry `e` describes no partition.
pub open spec fn spec_entry_is_empty(e: PartitionTableEntry) -> bool {
    e.size == 0 || e.partition_type == 0
}

/// The entry of a Linux swap partition of `size` sectors from sector `start` on.
pub open spec fn spec_swap_entry(start: u32, size: u32) -> PartitionTableEntry {
    PartitionTableEntry {
        bootable: 0,
        start_cylinder: spec_chs_of(start).0,
        start_head: spec_chs_of(start).1,
        start_sector: spec_chs_of(start).2,
        partition_type: 0x82,
        end_cylinder: spec_chs_of((start + size) as u32).0,
        end_head: spec_chs_of((start + size) as u32).1,
        end_sector: spec_chs_of((start + size) as u32).2,
        offset: start,
        size,
    }
}

/// Sector `new0` is sector `old0` with the first empty entry of its partition
/// table replaced by the entry of a swap partition of `size` sectors at `start`.
pub open spec fn swap_entry_added(old0: Seq<u8>, new0: Seq<u8>, start: u32, size: u32) -> bool {
    exists|k: int|
        0 <= k < 4 && #[trigger] spec_entry_is_empty(spec_table_entries(old0)[k]) && (forall|j: int|
            0 <= j < k ==> !spec_entry_is_empty(#[trigger] spec_table_entries(old0)[j]))
            && spec_table_entries(new0) == spec_table_entries(old0).update(k, spec_swap_entry(start, size))
}

/// Register a swap partition of `p_size` sectors from sector `p_start` on, on
/// block `device`, in the first empty entry of its partition table.
///
/// No check is made that the partition does not overlap another one.
pub fn register_partition<D: BlockOp>(
    manager: &mut BlockManager<D>,
    p_start: BlockSector,
    p_size: BlockSector,
    p_type: BlockType,
    device: usize,
) -> (r: Result<(), BlockError>)
    requires
        old(manager).wf(),
        device < old(manager).all_blocks@.len() && p_start + p_size <= old(manager).all_blocks@[device as int].block_size
            ==> p_type == BlockType::Swap && writable(old(manager).all_blocks@, device as int),
    ensures
        final(manager).wf(),
        final(manager).infos() == old(manager).infos(),
        device >= old(manager).all_blocks@.len() ==> r == Err::<(), BlockError>(BlockError::DeviceNotFound),
        device < old(manager).all_blocks@.len() && p_start + p_size > old(manager).all_blocks@[device as int].block_size
            ==> r == Err::<(), BlockError>(BlockError::SectorOutOfBounds),
        r is Ok ==> swap_entry_added(
            old(manager).sector_data(device as int, 0),
            final(manager).sector_data(device as int, 0),
            p_start,
            p_size,
        ),
{
    if device >= manager.len() {
        return Err(BlockError::DeviceNotFound);
    }
    let size = manager.all_blocks[device].block_size;
    match p_start.checked_add(p_size) {
        None => return Err(BlockError::SectorOutOfBounds),
        Some(end) => {
            if end > size {
                return Err(BlockError::SectorOutOfBounds);
            }
        },
    }
    register_swap_partition(manager, p_start, p_size, device)
}

proof fn lemma_parsed_entries(pt: PartitionTable, b: Seq<u8>)
    requires
        table_parsed_from(pt, b),
    ensures
        pt.entries@ == spec_table_entries(b),
{
    assert forall|i: int| 0 <= i < 4 implies #[trigger] pt.entries@[i] == spec_table_entries(b)[i] by {}
    assert(pt.entries@ =~= spec_table_entries(b));
}

proof fn lemma_swap_added(old0: Seq<u8>, new0: Seq<u8>, k: int, start: u32, size: u32)
    requires
        0 <= k < 4,
        spec_table_entries(new0) == spec_table_entries(old0).update(k, spec_swap_entry(start, size)),
        spec_entry_is_empty(spec_table_entries(old0)[k]),
        forall|j: int| 0 <= j < k ==> !spec_entry_is_empty(#[trigger] spec_table_entries(old0)[j]),
    ensures
        swap_entry_added(old0, new0, start, size),
{
}

/// Turns `entry` into the entry of a swap partition of `size` sectors at `start`.
fn to_swap_entry(entry: &mut PartitionTableEntry, start: BlockSector, size: BlockSector)
    requires
        start + size <= u32::MAX,
    ensures
        *final(entry) == spec_swap_entry(start, size),
{
    entry.set_bootable(false);
    entry.set_start(start);
    entry.set_partition_type(0x82);
    entry.set_size(size);
}

/// Find the first empty entry of `pt`.
fn first_empty_entry(pt: &PartitionTable) -> (r: Option<usize>)
    ensures
        match r {
            Some(k) => k < 4 && spec_entry_is_empty(pt.entries@[k as int]) && forall|j: int|
                0 <= j < k ==> !spec_entry_is_empty(#[trigger] pt.entries@[j]),
            None => forall|j: int| 0 <= j < 4 ==> !spec_entry_is_empty(#[trigger] pt.entries@[j]),
        },
{
    let mut i: usize = 0;
    while i < 4
        invariant
            i <= 4,
            forall|j: int| 0 <= j < i ==> !spec_entry_is_empty(#[trigger] pt.entries@[j]),
        decreases 4 - i,
    {
        if pt.entries[i].is_empty() {
            return Some(i);
        }
        i = i + 1;
    }
    None
}

/// The sector `buf` with a swap partition of `size` sectors at `start` added in
/// the first empty entry of its partition table, or `None` when no entry is empty.
pub fn add_swap_entry(buf: &[u8], start: BlockSector, size: BlockSector) -> (r: Option<Vec<u8>>)
    requires
        buf@.len() == BLOCK_SECTOR_SIZE,
        start + size <= u32::MAX,
    ensures
        match r {
            Some(out) => out@.len() == BLOCK_SECTOR_SIZE && swap_entry_added(buf@, out@, start, size),
            None => forall|j: int| 0 <= j < 4 ==> !spec_entry_is_empty(#[trigger] spec_table_entries(buf@)[j]),
        },
{
    let mut pt = PartitionTable::new(buf);
    proof { lemma_parsed_entries(pt, buf@); }
    let k = match first_empty_entry(&pt) {
        None => return None,
        Some(k) => k,
    };
    let ghost old_entries = pt.entries@;
    let mut entry = pt.entries[k];
    to_swap_entry(&mut entry, start, size);
    pt.entries[k] = entry;
    assert(pt.entries@ =~= old_entries.update(k as int, spec_swap_entry(start, size)));
    let mut out = vec![0u8; BLOCK_SECTOR_SIZE];
    pt.serialize(out.as_mut_slice());
    proof {
        lemma_table_bytes_roundtrip(pt);
        assert(out@ =~= crate::block::partitions::partition_core::spec_table_bytes(pt));
        lemma_parsed_entries(pt, out@);
        lemma_swap_added(buf@, out@, k as int, start, size);
    }
    Some(out)
}

/// Adds a swap partition entry to the partition table in sector 0 of `device`.
fn register_swap_partition<D: BlockOp>(
    manager: &mut BlockManager<D>,
    p_start: BlockSector,
    p_size: BlockSector,
    device: usize,
) -> (r: Result<(), BlockError>)
    requires
        old(manager).wf(),
        device < old(manager).all_blocks@.len(),
        p_start + p_size <= old(manager).all_blocks@[device as int].block_size,
        writable(old(manager).all_blocks@, device as int),
    ensures
        final(manager).wf(),
        final(manager).infos() == old(manager).infos(),
        r is Ok ==> swap_entry_added(
            old(manager).sector_data(device as int, 0),
            final(manager).sector_data(device as int, 0),
            p_start,
            p_size,
        ),
{
    let ghost old0 = manager.sector_data(device as int, 0);
    let ghost m0 = *manager;
    let mut buf = vec![0u8; BLOCK_SECTOR_SIZE];
    manager.read(device, 0, buf.as_mut_slice())?;
    let out = match add_swap_entry(buf.as_slice(), p_start, p_size) {
        None => return Err(BlockError::WriteError),
        Some(out) => out,
    };
    proof { crate::block::block_core::lemma_writable_by_infos(&m0, manager, device as int); }
    manager.write(device, 0, out.as_slice())
}

} // verus!
