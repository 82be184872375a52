//! MBR partition tables: parsing and writing entries and tables, and scanning
//! a device for partitions (following extended partitions).
use crate::block::block_core::{
    BlockDriver, BlockManager, BlockOp, BlockSector, BlockType, BLOCK_SECTOR_SIZE,
};
use crate::block::partitions::partition_utils::lba_to_chs;
use crate::bytes::{
    le16_at, le32, le32_at, lemma_le16_bytes_of_value, lemma_le32_bytes_of_value, lemma_u16_le_bytes_value,
    lemma_u32_le_bytes_value, read_u16_le, read_u32_le, u16_le_bytes, u32_le_bytes, write_u16_le, write_u32_le,
};
use vstd::prelude::*;

pub use crate::block::block_core::Partition;

verus! {

/// A partition table entry in the MBR.
#[derive(Clone, Copy, Debug, PartialEq, Eq, Structural)]
pub struct PartitionTableEntry {
    /// 0x00    1   Drive attributes (bit 7 set = active or bootable)
    pub bootable: u8,
    /// 0x01    3   CHS Address of partition start
    pub start_cylinder: u8,
    pub start_head: u8,
    pub start_sector: u8,
    /// 0x04    1   Partition type
    pub partition_type: u8,
    /// 0x05    3   CHS address of last partition sector
    pub end_cylinder: u8,
    pub end_head: u8,
    pub end_sector: u8,
    /// 0x08    4   LBA of partition start
    pub offset: u32,
    /// 0x0C    4   Number of sectors in partition
    pub size: u32,
}

/// The entry that the first 16 bytes of `b` encode.
pub open spec fn spec_entry_from_bytes(b: Seq<u8>) -> PartitionTableEntry {
    PartitionTableEntry {
        bootable: b[0],
        start_cylinder: b[1],
        start_head: b[2],
        start_sector: b[3],
        partition_type: b[4],
        end_cylinder: b[5],
        end_head: b[6],
        end_sector: b[7],
        offset: le32_at(b, 8) as u32,
        size: le32_at(b, 12) as u32,
    }
}

/// The 16 bytes that encode entry `e`.
pub open spec fn spec_entry_bytes(e: PartitionTableEntry) -> Seq<u8> {
    seq![e.bootable, e.start_cylinder, e.start_head, e.start_sector, e.partition_type, e.end_cylinder,
        e.end_head, e.end_sector] + u32_le_bytes(e.offset) + u32_le_bytes(e.size)
}

/// The CHS triple that `lba_to_chs` gives for `lba`.
pub open spec fn spec_chs_of(lba: u32) -> (u8, u8, u8) {
    (((lba / 63 / 16) % 256) as u8, ((lba / 63) % 16) as u8, (lba % 63 + 1) as u8)
}

impl PartitionTableEntry {
    /// Get the bootable flag.
    pub fn get_bootable(&self) -> (r: u8)
        ensures r == self.bootable,
    {
        self.bootable
    }

    /// Set the bootable flag.
    pub fn set_bootable(&mut self, bootable: bool)
        ensures
            *final(self) == (PartitionTableEntry { bootable: if bootable { 1u8 } else { 0u8 }, ..*old(self) }),
    {
        self.bootable = if bootable { 0x01 } else { 0x00 };
    }

    /// Get the cylinder of the start CHS address.
    pub fn get_start_cylinder(&self) -> (r: u8)
        ensures r == self.start_cylinder,
    {
        self.start_cylinder
    }

    /// Set the cylinder of the start CHS address.
    pub fn set_start_cylinder(&mut self, start_cylinder: u8)
        ensures
            *final(self) == (PartitionTableEntry { start_cylinder, ..*old(self) }),
    {
        self.start_cylinder = start_cylinder;
    }

    /// Get the head of the start CHS address.
    pub fn get_start_head(&self) -> (r: u8)
        ensures r == self.start_head,
    {
        self.start_head
    }

    /// Set the head of the start CHS address.
    pub fn set_start_head(&mut self, start_head: u8)
        ensures
            *final(self) == (PartitionTableEntry { start_head, ..*old(self) }),
    {
        self.start_head = start_head;
    }

    /// Get the sector of the start CHS address.
    pub fn get_start_sector(&self) -> (r: u8)
        ensures r == self.start_sector,
    {
        self.start_sector
    }

    /// Set the sector of the start CHS address.
    pub fn set_start_sector(&mut self, start_sector: u8)
        ensures
            *final(self) == (PartitionTableEntry { start_sector, ..*old(self) }),
    {
        self.start_sector = start_sector;
    }

    /// Set the start CHS address, and the offset with it.
    pub fn set_start(&mut self, start: BlockSector)
        ensures
            *final(self) == (PartitionTableEntry {
                start_cylinder: spec_chs_of(start).0,
                start_head: spec_chs_of(start).1,
                start_sector: spec_chs_of(start).2,
                offset: start,
                ..*old(self)
            }),
    {
        let (cylinder, head, sector) = lba_to_chs(start);
        self.start_cylinder = cylinder;
        self.start_head = head;
        self.start_sector = sector;
        self.offset = start;
    }

    /// Get the partition type.
    pub fn get_partition_type(&self) -> (r: u8)
        ensures r == self.partition_type,
    {
        self.partition_type
    }

    /// Set the partition type.
    pub fn set_partition_type(&mut self, partition_type: u8)
        ensures
            *final(self) == (PartitionTableEntry { partition_type, ..*old(self) }),
    {
        self.partition_type = partition_type;
    }

    /// Get the cylinder of the end CHS address.
    pub fn get_end_cylinder(&self) -> (r: u8)
        ensures r == self.end_cylinder,
    {
        self.end_cylinder
    }

    /// Set the cylinder of the end CHS address.
    pub fn set_end_cylinder(&mut self, end_cylinder: u8)
        ensures
            *final(self) == (PartitionTableEntry { end_cylinder, ..*old(self) }),
    {
        self.end_cylinder = end_cylinder;
    }

    /// Get the head of the end CHS address.
    pub fn get_end_head(&self) -> (r: u8)
        ensures r == self.end_head,
    {
        self.end_head
    }

    /// Set the head of the end CHS address.
    pub fn set_end_head(&mut self, end_head: u8)
        ensures
            *final(self) == (PartitionTableEntry { end_head, ..*old(self) }),
    {
        self.end_head = end_head;
    }

    /// Get the sector of the end CHS address.
    pub fn get_end_sector(&self) -> (r: u8)
        ensures r == self.end_sector,
    {
        self.end_sector
    }

    /// Set the sector of the end CHS address.
    pub fn set_end_sector(&mut self, end_sector: u8)
        ensures
            *final(self) == (PartitionTableEntry { end_sector, ..*old(self) }),
    {
        self.end_sector = end_sector;
    }

    /// Set the end CHS address, and the size with it. The end must not lie before
    /// the offset.
    pub fn set_end(&mut self, end: BlockSector)
        requires
            end >= old(self).offset,
        ensures
            *final(self) == (PartitionTableEntry {
                end_cylinder: spec_chs_of(end).0,
                end_head: spec_chs_of(end).1,
                end_sector: spec_chs_of(end).2,
                size: (end - old(self).offset) as u32,
                ..*old(self)
            }),
    {
        let (cylinder, head, sector) = lba_to_chs(end);
        self.end_cylinder = cylinder;
        self.end_head = head;
        self.end_sector = sector;
        self.size = end - self.offset;
    }

    /// Get the offset.
    pub fn get_offset(&self) -> (r: u32)
        ensures r == self.offset,
    {
        self.offset
    }

    /// Set the offset, and the start CHS address with it.
    pub fn set_offset(&mut self, offset: u32)
        ensures
            *final(self) == (PartitionTableEntry {
                start_cylinder: spec_chs_of(offset).0,
                start_head: spec_chs_of(offset).1,
                start_sector: spec_chs_of(offset).2,
                offset,
                ..*old(self)
            }),
    {
        self.offset = offset;
        self.set_start(offset);
    }

    /// Get the size.
    pub fn get_size(&self) -> (r: u32)
        ensures r == self.size,
    {
        self.size
    }

    /// Set the size, and the end CHS address with it. The partition must end
    /// within the 32-bit sector range.
    pub fn set_size(&mut self, size: u32)
        requires
            old(self).offset + size <= u32::MAX,
        ensures
            *final(self) == (PartitionTableEntry {
                end_cylinder: spec_chs_of((old(self).offset + size) as u32).0,
                end_head: spec_chs_of((old(self).offset + size) as u32).1,
                end_sector: spec_chs_of((old(self).offset + size) as u32).2,
                size,
                ..*old(self)
            }),
    {
        self.size = size;
        self.set_end(self.offset + size);
    }

    /// Parses an entry from the first 16 bytes of `buf`.
    pub fn new(buf: &[u8]) -> (r: PartitionTableEntry)
        requires
            buf@.len() >= 16,
        ensures
            r == spec_entry_from_bytes(buf@),
    {
        PartitionTableEntry {
            bootable: buf[0],
            start_cylinder: buf[1],
            start_head: buf[2],
            start_sector: buf[3],
            partition_type: buf[4],
            end_cylinder: buf[5],
            end_head: buf[6],
            end_sector: buf[7],
            offset: read_u32_le(buf, 8),
            size: read_u32_le(buf, 12),
        }
    }

    /// Whether the entry describes no partition.
    pub fn is_empty(&self) -> (r: bool)
        ensures
            r == (self.size == 0 || self.partition_type == 0),
    {
        self.size == 0 || self.partition_type == 0
    }

    /// Writes the entry into the first 16 bytes of `buf`.
    pub fn serialize(&self, buf: &mut [u8])
        requires
            old(buf)@.len() >= 16,
        ensures
            final(buf)@ == spec_entry_bytes(*self) + old(buf)@.subrange(16, old(buf)@.len() as int),
    {
        buf[0] = self.bootable;
        buf[1] = self.start_cylinder;
        buf[2] = self.start_head;
        buf[3] = self.start_sector;
        buf[4] = self.partition_type;
        buf[5] = self.end_cylinder;
        buf[6] = self.end_head;
        buf[7] = self.end_sector;
        write_u32_le(buf, 8, self.offset);
        write_u32_le(buf, 12, self.size);
        assert(buf@ =~= spec_entry_bytes(*self) + old(buf)@.subrange(16, old(buf)@.len() as int));
    }
}

/// Writing an entry and parsing the bytes gives the entry back.
pub proof fn lemma_entry_bytes_roundtrip(e: PartitionTableEntry)
    ensures
        spec_entry_bytes(e).len() == 16,
        spec_entry_from_bytes(spec_entry_bytes(e)) == e,
{
    lemma_u32_le_bytes_value(e.offset);
    lemma_u32_le_bytes_value(e.size);
    let b = spec_entry_bytes(e);
    assert(le32_at(b, 8) == le32(u32_le_bytes(e.offset)[0], u32_le_bytes(e.offset)[1], u32_le_bytes(e.offset)[2], u32_le_bytes(e.offset)[3]));
    assert(le32_at(b, 12) == le32(u32_le_bytes(e.size)[0], u32_le_bytes(e.size)[1], u32_le_bytes(e.size)[2], u32_le_bytes(e.size)[3]));
}

/// Parsing 16 bytes as an entry and writing the entry gives the bytes back.
pub proof fn lemma_entry_parse_roundtrip(b: Seq<u8>)
    requires
        b.len() == 16,
    ensures
        spec_entry_bytes(spec_entry_from_bytes(b)) == b,
{
    lemma_le32_bytes_of_value(b[8], b[9], b[10], b[11]);
    lemma_le32_bytes_of_value(b[12], b[13], b[14], b[15]);
    assert(spec_entry_bytes(spec_entry_from_bytes(b)) =~= b);
}

/// An MBR partition table.
pub struct PartitionTable {
    /// 0x000   440     MBR Bootstrap (flat binary executable code)
    pub bootstrap: [u8; 440],
    /// 0x1B8   4       Optional "Unique Disk ID / Signature"
    pub id: u32,
    /// 0x1BC   2       Optional, reserved 0x0000
    pub reserved: u16,
    /// 0x1BE   4 x 16  The four partition table entries
    pub entries: [PartitionTableEntry; 4],
    /// 0x1FE   2       (0x55, 0xAA) "Valid bootsector" signature bytes
    pub signature: u16,
}

/// Whether `t` is the table that the first 512 bytes of `b` encode.
pub open spec fn table_parsed_from(t: PartitionTable, b: Seq<u8>) -> bool {
    &&& t.bootstrap@ == b.subrange(0, 440)
    &&& t.id == le32_at(b, 440)
    &&& t.reserved == le16_at(b, 444)
    &&& forall|i: int| 0 <= i < 4 ==> #[trigger] t.entries@[i] == spec_entry_from_bytes(b.subrange(446 + 16 * i, 462 + 16 * i))
    &&& t.signature == le16_at(b, 510)
}

/// The 512 bytes that encode table `t`.
pub open spec fn spec_table_bytes(t: PartitionTable) -> Seq<u8> {
    t.bootstrap@ + u32_le_bytes(t.id) + u16_le_bytes(t.reserved) + spec_entry_bytes(t.entries@[0])
        + spec_entry_bytes(t.entries@[1]) + spec_entry_bytes(t.entries@[2]) + spec_entry_bytes(t.entries@[3])
        + u16_le_bytes(t.signature)
}

impl PartitionTable {
    /// Parses a partition table from the first 512 bytes of `buf`.
    pub fn new(buf: &[u8]) -> (r: PartitionTable)
        requires
            buf@.len() >= 512,
        ensures
            table_parsed_from(r, buf@),
    {
        let mut bootstrap = [0u8; 440];
        let mut i: usize = 0;
        while i < 440
            invariant
                i <= 440,
                buf@.len() >= 512,
                bootstrap@.len() == 440,
                forall|j: int| 0 <= j < i ==> bootstrap@[j] == buf@[j],
            decreases 440 - i,
        {
            bootstrap[i] = buf[i];
            i = i + 1;
        }
        assert(bootstrap@ =~= buf@.subrange(0, 440));
        let id = read_u32_le(buf, 440);
        let reserved = read_u16_le(buf, 444);
        let e0 = PartitionTableEntry::new(&buf[446..462]);
        let e1 = PartitionTableEntry::new(&buf[462..478]);
        let e2 = PartitionTableEntry::new(&buf[478..494]);
        let e3 = PartitionTableEntry::new(&buf[494..510]);
        let entries = [e0, e1, e2, e3];
        let signature = read_u16_le(buf, 510);
        let t = PartitionTable { bootstrap, id, reserved, entries, signature };
        assert forall|i: int| 0 <= i < 4 implies #[trigger] t.entries@[i] == spec_entry_from_bytes(
            buf@.subrange(446 + 16 * i, 462 + 16 * i),
        ) by {
            if i == 0 {} else if i == 1 {} else if i == 2 {} else {}
        }
        t
    }

    /// Writes the table into the first 512 bytes of `buf`.
    pub fn serialize(&self, buf: &mut [u8])
        requires
            old(buf)@.len() >= 512,
        ensures
            final(buf)@ == spec_table_bytes(*self) + old(buf)@.subrange(512, old(buf)@.len() as int),
    {
        let mut i: usize = 0;
        while i < 440
            invariant
                i <= 440,
                buf@.len() == old(buf)@.len(),
                old(buf)@.len() >= 512,
                self.bootstrap@.len() == 440,
                forall|j: int| 0 <= j < i ==> buf@[j] == self.bootstrap@[j],
                forall|j: int| 440 <= j < buf@.len() ==> buf@[j] == old(buf)@[j],
            decreases 440 - i,
        {
            buf[i] = self.bootstrap[i];
            i = i + 1;
        }
        write_u32_le(buf, 440, self.id);
        write_u16_le(buf, 444, self.reserved);
        let mut entry_buf: [u8; 16] = [0; 16];
        let ghost before = buf@;
        self.entries[0].serialize(&mut entry_buf);
        Self::copy_entry(buf, 446, &entry_buf);
        self.entries[1].serialize(&mut entry_buf);
        Self::copy_entry(buf, 462, &entry_buf);
        self.entries[2].serialize(&mut entry_buf);
        Self::copy_entry(buf, 478, &entry_buf);
        self.entries[3].serialize(&mut entry_buf);
        Self::copy_entry(buf, 494, &entry_buf);
        write_u16_le(buf, 510, self.signature);
        assert(buf@ =~= spec_table_bytes(*self) + old(buf)@.subrange(512, old(buf)@.len() as int));
    }

    /// Copies the 16 bytes of `entry` to offset `off` of `buf`.
    fn copy_entry(buf: &mut [u8], off: usize, entry: &[u8; 16])
        requires
            off + 16 <= old(buf)@.len(),
        ensures
            final(buf)@ == old(buf)@.subrange(0, off as int) + entry@ + old(buf)@.subrange(off + 16, old(buf)@.len() as int),
    {
        let n = buf.len();
        let mut i: usize = 0;
        while i < 16
            invariant
                i <= 16,
                n == buf@.len(),
                off + 16 <= old(buf)@.len(),
                buf@.len() == old(buf)@.len(),
                entry@.len() == 16,
                forall|j: int| 0 <= j < off ==> buf@[j] == old(buf)@[j],
                forall|j: int| 0 <= j < i ==> buf@[off + j] == entry@[j],
                forall|j: int| off + i <= j < buf@.len() ==> buf@[j] == old(buf)@[j],
            decreases 16 - i,
        {
            buf[off + i] = entry[i];
            i = i + 1;
        }
        assert(buf@ =~= old(buf)@.subrange(0, off as int) + entry@ + old(buf)@.subrange(off + 16, old(buf)@.len() as int));
    }
}

proof fn lemma_table_bytes_entry(t: PartitionTable, i: int)
    requires
        0 <= i < 4,
    ensures
        spec_table_bytes(t).subrange(446 + 16 * i, 462 + 16 * i) == spec_entry_bytes(t.entries@[i]),
{
    let head = t.bootstrap@ + u32_le_bytes(t.id) + u16_le_bytes(t.reserved);
    let e0 = spec_entry_bytes(t.entries@[0]);
    let e1 = spec_entry_bytes(t.entries@[1]);
    let e2 = spec_entry_bytes(t.entries@[2]);
    let e3 = spec_entry_bytes(t.entries@[3]);
    let b = spec_table_bytes(t);
    assert(head.len() == 446);
    assert(b == head + e0 + e1 + e2 + e3 + u16_le_bytes(t.signature));
    if i == 0 {
        assert(b.subrange(446, 462) =~= e0);
    } else if i == 1 {
        assert(b.subrange(462, 478) =~= e1);
    } else if i == 2 {
        assert(b.subrange(478, 494) =~= e2);
    } else {
        assert(b.subrange(494, 510) =~= e3);
    }
}

/// Parsing the bytes of a table gives the table back.
#[verifier::rlimit(40)]
pub proof fn lemma_table_bytes_roundtrip(t: PartitionTable)
    ensures
        spec_table_bytes(t).len() == 512,
        table_parsed_from(t, spec_table_bytes(t)),
{
    let b = spec_table_bytes(t);
    lemma_u32_le_bytes_value(t.id);
    lemma_u16_le_bytes_value(t.reserved);
    lemma_u16_le_bytes_value(t.signature);
    assert(b.subrange(0, 440) =~= t.bootstrap@);
    assert(b[440] == u32_le_bytes(t.id)[0] && b[441] == u32_le_bytes(t.id)[1] && b[442] == u32_le_bytes(t.id)[2]
        && b[443] == u32_le_bytes(t.id)[3]);
    assert(b[444] == u16_le_bytes(t.reserved)[0] && b[445] == u16_le_bytes(t.reserved)[1]);
    assert(b[510] == u16_le_bytes(t.signature)[0] && b[511] == u16_le_bytes(t.signature)[1]);
    assert forall|i: int| 0 <= i < 4 implies #[trigger] t.entries@[i] == spec_entry_from_bytes(
        b.subrange(446 + 16 * i, 462 + 16 * i),
    ) by {
        lemma_entry_bytes_roundtrip(t.entries@[i]);
        lemma_table_bytes_entry(t, i);
    }
}

/// Parsing 512 bytes as a table and writing the table gives the bytes back.
pub proof fn lemma_table_parse_roundtrip(t: PartitionTable, b: Seq<u8>)
    requires
        b.len() == 512,
        table_parsed_from(t, b),
    ensures
        spec_table_bytes(t) == b,
{
    lemma_le32_bytes_of_value(b[440], b[441], b[442], b[443]);
    lemma_le16_bytes_of_value(b[444], b[445]);
    lemma_le16_bytes_of_value(b[510], b[511]);
    let mut i: int = 0;
    assert forall|i: int| 0 <= i < 4 implies #[trigger] spec_entry_bytes(t.entries@[i]) == b.subrange(446 + 16 * i, 462 + 16 * i) by {
        lemma_entry_parse_roundtrip(b.subrange(446 + 16 * i, 462 + 16 * i));
    }
    assert(spec_entry_bytes(t.entries@[0]) == b.subrange(446, 462));
    assert(spec_entry_bytes(t.entries@[1]) == b.subrange(462, 478));
    assert(spec_entry_bytes(t.entries@[2]) == b.subrange(478, 494));
    assert(spec_entry_bytes(t.entries@[3]) == b.subrange(494, 510));
    assert(spec_table_bytes(t) =~= b);
}

/// The name of each partition type.
pub open spec fn spec_partition_type_name(ty: u8) -> Seq<char> {
    match ty {
        0x00u8 => "Empty"@,
        0x01u8 => "FAT12"@,
        0x02u8 => "XENIX root"@,
        0x03u8 => "XENIX usr"@,
        0x04u8 => "FAT16 <32M"@,
        0x05u8 => "Extended"@,
        0x06u8 => "FAT16"@,
        0x07u8 => "HPFS/NTFS"@,
        0x08u8 => "AIX"@,
        0x09u8 => "AIX bootable"@,
        0x0au8 => "OS/2 Boot Manager"@,
        0x0bu8 => "W95 FAT32"@,
        0x0cu8 => "W95 FAT32 (LBA)"@,
        0x0eu8 => "W95 FAT16 (LBA)"@,
        0x0fu8 => "W95 Ext'd (LBA)"@,
        0x10u8 => "OPUS"@,
        0x11u8 => "Hidden FAT12"@,
        0x12u8 => "Compaq diagnostics"@,
        0x14u8 => "Hidden FAT16 <32M"@,
        0x16u8 => "Hidden FAT16"@,
        0x17u8 => "Hidden HPFS/NTFS"@,
        0x18u8 => "AST SmartSleep"@,
        0x1bu8 => "Hidden W95 FAT32"@,
        0x1cu8 => "Hidden W95 FAT32 (LBA)"@,
        0x1eu8 => "Hidden W95 FAT16 (LBA)"@,
        0x20u8 => "Pintos OS kernel"@,
        0x21u8 => "Pintos file system"@,
        0x22u8 => "Pintos scratch"@,
        0x23u8 => "Pintos swap"@,
        0x24u8 => "NEC DOS"@,
        0x39u8 => "Plan 9"@,
        0x3cu8 => "PartitionMagic recovery"@,
        0x40u8 => "Venix 80286"@,
        0x41u8 => "PPC PReP Boot"@,
        0x42u8 => "SFS"@,
        0x4du8 => "QNX4.x"@,
        0x4eu8 => "QNX4.x 2nd part"@,
        0x4fu8 => "QNX4.x 3rd part"@,
        0x50u8 => "OnTrack DM"@,
        0x51u8 => "OnTrack DM6 Aux1"@,
        0x52u8 => "CP/M"@,
        0x53u8 => "OnTrack DM6 Aux3"@,
        0x54u8 => "OnTrackDM6"@,
        0x55u8 => "EZ-Drive"@,
        0x56u8 => "Golden Bow"@,
        0x5cu8 => "Priam Edisk"@,
        0x61u8 => "SpeedStor"@,
        0x63u8 => "GNU HURD or SysV"@,
        0x64u8 => "Novell Netware 286"@,
        0x65u8 => "Novell Netware 386"@,
        0x70u8 => "DiskSecure Multi-Boot"@,
        0x75u8 => "PC/IX"@,
        0x80u8 => "Old Minix"@,
        0x81u8 => "Minix / old Linux"@,
        0x82u8 => "Linux swap / Solaris"@,
        0x83u8 => "Linux"@,
        0x84u8 => "OS/2 hidden C: drive"@,
        0x85u8 => "Linux extended"@,
        0x86u8 => "NTFS volume set"@,
        0x87u8 => "NTFS volume set"@,
        0x88u8 => "Linux plaintext"@,
        0x8eu8 => "Linux LVM"@,
        0x93u8 => "Amoeba"@,
        0x94u8 => "Amoeba BBT"@,
        0x9fu8 => "BSD/OS"@,
        0xa0u8 => "IBM Thinkpad hibernation"@,
        0xa5u8 => "FreeBSD"@,
        0xa6u8 => "OpenBSD"@,
        0xa7u8 => "NeXTSTEP"@,
        0xa8u8 => "Darwin UFS"@,
        0xa9u8 => "NetBSD"@,
        0xabu8 => "Darwin boot"@,
        0xb7u8 => "BSDI fs"@,
        0xb8u8 => "BSDI swap"@,
        0xbbu8 => "Boot Wizard hidden"@,
        0xbeu8 => "Solaris boot"@,
        0xbfu8 => "Solaris"@,
        0xc1u8 => "DRDOS/sec (FAT-12)"@,
        0xc4u8 => "DRDOS/sec (FAT-16 < 32M)"@,
        0xc6u8 => "DRDOS/sec (FAT-16)"@,
        0xc7u8 => "Syrinx"@,
        0xdau8 => "Non-FS data"@,
        0xdbu8 => "CP/M / CTOS / ..."@,
        0xdeu8 => "Dell Utility"@,
        0xdfu8 => "BootIt"@,
        0xe1u8 => "DOS access"@,
        0xe3u8 => "DOS R/O"@,
        0xe4u8 => "SpeedStor"@,
        0xebu8 => "BeOS fs"@,
        0xeeu8 => "EFI GPT"@,
        0xefu8 => "EFI (FAT-12/16/32)"@,
        0xf0u8 => "Linux/PA-RISC boot"@,
        0xf1u8 => "SpeedStor"@,
        0xf4u8 => "SpeedStor"@,
        0xf2u8 => "DOS secondary"@,
        0xfdu8 => "Linux raid autodetect"@,
        0xfeu8 => "LANstep"@,
        0xffu8 => "BBT"@,
        _ => "Unknown"@,
    }
}

/// The name of partition type `ty`, or "Unknown".
pub fn partition_type_name(ty: u8) -> (r: &'static str)
    ensures
        r@ == spec_partition_type_name(ty),
{
    match ty {
        0x00u8 => "Empty",
        0x01u8 => "FAT12",
        0x02u8 => "XENIX root",
        0x03u8 => "XENIX usr",
        0x04u8 => "FAT16 <32M",
        0x05u8 => "Extended",
        0x06u8 => "FAT16",
        0x07u8 => "HPFS/NTFS",
        0x08u8 => "AIX",
        0x09u8 => "AIX bootable",
        0x0au8 => "OS/2 Boot Manager",
        0x0bu8 => "W95 FAT32",
        0x0cu8 => "W95 FAT32 (LBA)",
        0x0eu8 => "W95 FAT16 (LBA)",
        0x0fu8 => "W95 Ext'd (LBA)",
        0x10u8 => "OPUS",
        0x11u8 => "Hidden FAT12",
        0x12u8 => "Compaq diagnostics",
        0x14u8 => "Hidden FAT16 <32M",
        0x16u8 => "Hidden FAT16",
        0x17u8 => "Hidden HPFS/NTFS",
        0x18u8 => "AST SmartSleep",
        0x1bu8 => "Hidden W95 FAT32",
        0x1cu8 => "Hidden W95 FAT32 (LBA)",
        0x1eu8 => "Hidden W95 FAT16 (LBA)",
        0x20u8 => "Pintos OS kernel",
        0x21u8 => "Pintos file system",
        0x22u8 => "Pintos scratch",
        0x23u8 => "Pintos swap",
        0x24u8 => "NEC DOS",
        0x39u8 => "Plan 9",
        0x3cu8 => "PartitionMagic recovery",
        0x40u8 => "Venix 80286",
        0x41u8 => "PPC PReP Boot",
        0x42u8 => "SFS",
        0x4du8 => "QNX4.x",
        0x4eu8 => "QNX4.x 2nd part",
        0x4fu8 => "QNX4.x 3rd part",
        0x50u8 => "OnTrack DM",
        0x51u8 => "OnTrack DM6 Aux1",
        0x52u8 => "CP/M",
        0x53u8 => "OnTrack DM6 Aux3",
        0x54u8 => "OnTrackDM6",
        0x55u8 => "EZ-Drive",
        0x56u8 => "Golden Bow",
        0x5cu8 => "Priam Edisk",
        0x61u8 => "SpeedStor",
        0x63u8 => "GNU HURD or SysV",
        0x64u8 => "Novell Netware 286",
        0x65u8 => "Novell Netware 386",
        0x70u8 => "DiskSecure Multi-Boot",
        0x75u8 => "PC/IX",
        0x80u8 => "Old Minix",
        0x81u8 => "Minix / old Linux",
        0x82u8 => "Linux swap / Solaris",
        0x83u8 => "Linux",
        0x84u8 => "OS/2 hidden C: drive",
        0x85u8 => "Linux extended",
        0x86u8 => "NTFS volume set",
        0x87u8 => "NTFS volume set",
        0x88u8 => "Linux plaintext",
        0x8eu8 => "Linux LVM",
        0x93u8 => "Amoeba",
        0x94u8 => "Amoeba BBT",
        0x9fu8 => "BSD/OS",
        0xa0u8 => "IBM Thinkpad hibernation",
        0xa5u8 => "FreeBSD",
        0xa6u8 => "OpenBSD",
        0xa7u8 => "NeXTSTEP",
        0xa8u8 => "Darwin UFS",
        0xa9u8 => "NetBSD",
        0xabu8 => "Darwin boot",
        0xb7u8 => "BSDI fs",
        0xb8u8 => "BSDI swap",
        0xbbu8 => "Boot Wizard hidden",
        0xbeu8 => "Solaris boot",
        0xbfu8 => "Solaris",
        0xc1u8 => "DRDOS/sec (FAT-12)",
        0xc4u8 => "DRDOS/sec (FAT-16 < 32M)",
        0xc6u8 => "DRDOS/sec (FAT-16)",
        0xc7u8 => "Syrinx",
        0xdau8 => "Non-FS data",
        0xdbu8 => "CP/M / CTOS / ...",
        0xdeu8 => "Dell Utility",
        0xdfu8 => "BootIt",
        0xe1u8 => "DOS access",
        0xe3u8 => "DOS R/O",
        0xe4u8 => "SpeedStor",
        0xebu8 => "BeOS fs",
        0xeeu8 => "EFI GPT",
        0xefu8 => "EFI (FAT-12/16/32)",
        0xf0u8 => "Linux/PA-RISC boot",
        0xf1u8 => "SpeedStor",
        0xf4u8 => "SpeedStor",
        0xf2u8 => "DOS secondary",
        0xfdu8 => "Linux raid autodetect",
        0xfeu8 => "LANstep",
        0xffu8 => "BBT",
        _ => "Unknown",
    }
}

/// The decimal digits of `n`.
pub open spec fn spec_digits(n: nat) -> Seq<char>
    decreases n,
{
    if n < 10 {
        seq![(n + 48) as char]
    } else {
        spec_digits(n / 10).push(((n % 10) + 48) as char)
    }
}

/// The decimal form of `n`, as `Display` prints it.
pub open spec fn spec_decimal(n: i32) -> Seq<char> {
    if n < 0 {
        seq!['-'] + spec_digits((-n) as nat)
    } else {
        spec_digits(n as nat)
    }
}

/// The name of partition `part_nr` of device `dev_name`: the device's name, a
/// hyphen and the partition's number.
pub open spec fn spec_partition_name(dev_name: Seq<char>, part_nr: i32) -> Seq<char> {
    dev_name + seq!['-'] + spec_decimal(part_nr)
}

/// Formats the name of a partition with `format!("{}-{}", dev_name, part_nr)`:
/// the device's name, a hyphen and the decimal form of the number.
#[verifier::external_body]
fn partition_name(dev_name: &str, part_nr: i32) -> (r: String)
    ensures
        r@ == spec_partition_name(dev_name@, part_nr),
{
    format!("{}-{}", dev_name, part_nr)
}

/// The block type under which a partition of type `t` is registered.
pub open spec fn spec_partition_block_type(t: u8) -> BlockType {
    if t == 0x20 {
        BlockType::Kernel
    } else if t == 0x21 {
        BlockType::FileSystem
    } else if t == 0x22 {
        BlockType::Scratch
    } else if t == 0x23 {
        BlockType::Swap
    } else {
        BlockType::Raw
    }
}

/// The block type under which a partition of type `t` is registered.
pub fn partition_block_type(t: u8) -> (r: BlockType)
    ensures
        r == spec_partition_block_type(t),
{
    match t {
        0x20 => BlockType::Kernel,
        0x21 => BlockType::FileSystem,
        0x22 => BlockType::Scratch,
        0x23 => BlockType::Swap,
        _ => BlockType::Raw,
    }
}

/// Whether partition type `t` marks an extended partition (one that holds a
/// further partition table).
pub open spec fn spec_is_extended(t: u8) -> bool {
    t == 0x05 || t == 0x0F || t == 0x85 || t == 0xc5
}

/// Whether partition type `t` marks an extended partition.
pub fn is_extended(t: u8) -> (r: bool)
    ensures
        r == spec_is_extended(t),
{
    t == 0x05 || t == 0x0F || t == 0x85 || t == 0xc5
}

/// How deeply extended partition tables are followed.
pub const MAX_PARTITION_TABLE_DEPTH: u32 = 32;

/// Every block past `old_len` of `m` is a partition lying inside block `dev`.
pub open spec fn new_blocks_are_partitions_of<D: BlockOp>(m: &BlockManager<D>, old_len: int, dev: int) -> bool {
    forall|i: int|
        old_len <= i < m.all_blocks@.len() ==> {
            &&& #[trigger] m.infos()[i].partition matches Some(p)
            &&& p.block_idx == dev
            &&& p.start + m.infos()[i].size <= m.infos()[dev].size
            &&& m.infos()[i].block_type != BlockType::Foreign
        }
}

/// What a scan keeps: the manager's invariant, the blocks registered before,
/// and the data every block holds.
pub open spec fn scan_keeps<D: BlockOp>(old_m: &BlockManager<D>, m: &BlockManager<D>) -> bool {
    &&& m.wf()
    &&& m.all_blocks@.len() >= old_m.all_blocks@.len()
    &&& m.infos().subrange(0, old_m.all_blocks@.len() as int) == old_m.infos()
    &&& forall|i: int, s: int|
        0 <= i < old_m.all_blocks@.len() ==> #[trigger] m.sector_data(i, s) == old_m.sector_data(i, s)
    &&& forall|i: int, s: int|
        0 <= i < old_m.all_blocks@.len() ==> #[trigger] m.sector_readable(i, s) == old_m.sector_readable(i, s)
}

/// Registers partition `part_nr` of block `dev`, of type `partition_type`,
/// `size` sectors from sector `start` on, when it lies within the block.
/// Returns whether it was registered.
pub fn found_partition<D: BlockOp>(
    manager: &mut BlockManager<D>,
    dev: usize,
    partition_type: u8,
    start: BlockSector,
    size: u32,
    part_nr: i32,
) -> (registered: bool)
    requires
        old(manager).wf(),
        dev < old(manager).all_blocks@.len(),
    ensures
        scan_keeps(old(manager), final(manager)),
        registered == (start < old(manager).all_blocks@[dev as int].block_size && start + size
            <= old(manager).all_blocks@[dev as int].block_size && old(manager).all_blocks@.len() < usize::MAX),
        registered ==> final(manager).all_blocks@.len() == old(manager).all_blocks@.len() + 1 && final(manager).infos().last()
            == (crate::block::block_core::BlockInfo {
                name: spec_partition_name(old(manager).all_blocks@[dev as int].block_name@, part_nr),
                block_type: spec_partition_block_type(partition_type),
                size,
                partition: Some(Partition { block_idx: dev, start }),
            }),
        !registered ==> final(manager).all_blocks@.len() == old(manager).all_blocks@.len(),
        new_blocks_are_partitions_of(final(manager), old(manager).all_blocks@.len() as int, dev as int),
{
    proof { lemma_scan_keeps_refl(manager); }
    let dev_size = manager.all_blocks[dev].block_size;
    if start >= dev_size {
        return false;
    }
    match start.checked_add(size) {
        None => return false,
        Some(end) => {
            if end > dev_size {
                return false;
            }
        },
    }
    if manager.len() == usize::MAX {
        return false;
    }
    let b_type = partition_block_type(partition_type);
    let name = partition_name(manager.all_blocks[dev].block_name.as_str(), part_nr);
    let ghost old_m = *manager;
    manager.register_block(b_type, name.as_str(), size, BlockDriver::Partition(Partition { block_idx: dev, start }));
    proof {
        assert(manager.infos().subrange(0, old_m.all_blocks@.len() as int) =~= old_m.infos());
        assert forall|i: int, s: int|
            0 <= i < old_m.all_blocks@.len() implies #[trigger] manager.sector_data(i, s) == old_m.sector_data(i, s) by {
            lemma_sector_data_prefix(old_m.all_blocks@, manager.all_blocks@, i, s);
        }
        assert forall|i: int, s: int|
            0 <= i < old_m.all_blocks@.len() implies #[trigger] manager.sector_readable(i, s) == old_m.sector_readable(i, s) by {
            lemma_sector_readable_prefix(old_m.all_blocks@, manager.all_blocks@, i, s);
        }
    }
    true
}

/// The data of a block depends only on the blocks registered up to it.
pub proof fn lemma_sector_data_prefix<D: BlockOp>(a: Seq<crate::block::block_core::Block<D>>, b: Seq<crate::block::block_core::Block<D>>, i: int, s: int)
    requires
        a.len() <= b.len(),
        forall|j: int| 0 <= j < a.len() ==> a[j] == b[j],
        0 <= i < a.len(),
    ensures
        crate::block::block_core::block_sector_data(b, i, s) == crate::block::block_core::block_sector_data(a, i, s),
    decreases i,
{
    match a[i].driver {
        BlockDriver::Device(_) => {},
        BlockDriver::Partition(p) => {
            if p.block_idx < i {
                lemma_sector_data_prefix(a, b, p.block_idx as int, s + p.start);
            }
        },
    }
}

/// Whether a sector of a block reads depends only on the blocks registered up to it.
pub proof fn lemma_sector_readable_prefix<D: BlockOp>(a: Seq<crate::block::block_core::Block<D>>, b: Seq<crate::block::block_core::Block<D>>, i: int, s: int)
    requires
        a.len() <= b.len(),
        forall|j: int| 0 <= j < a.len() ==> a[j] == b[j],
        0 <= i < a.len(),
    ensures
        crate::block::block_core::block_sector_readable(b, i, s) == crate::block::block_core::block_sector_readable(a, i, s),
    decreases i,
{
    match a[i].driver {
        BlockDriver::Device(_) => {},
        BlockDriver::Partition(p) => {
            if p.block_idx < i {
                lemma_sector_readable_prefix(a, b, p.block_idx as int, s + p.start);
            }
        },
    }
}

proof fn lemma_scan_keeps_refl<D: BlockOp>(m: &BlockManager<D>)
    requires
        m.wf(),
    ensures
        scan_keeps(m, m),
        forall|dev: int| new_blocks_are_partitions_of(m, m.all_blocks@.len() as int, dev),
{
    assert(m.infos().subrange(0, m.all_blocks@.len() as int) =~= m.infos());
}

proof fn lemma_scan_keeps_trans<D: BlockOp>(a: &BlockManager<D>, b: &BlockManager<D>, c: &BlockManager<D>, dev: int)
    requires
        scan_keeps(a, b),
        scan_keeps(b, c),
        0 <= dev < a.all_blocks@.len(),
        new_blocks_are_partitions_of(b, a.all_blocks@.len() as int, dev),
        new_blocks_are_partitions_of(c, b.all_blocks@.len() as int, dev),
    ensures
        scan_keeps(a, c),
        new_blocks_are_partitions_of(c, a.all_blocks@.len() as int, dev),
{
    assert(c.infos().subrange(0, a.all_blocks@.len() as int) =~= a.infos()) by {
        assert(c.infos().subrange(0, a.all_blocks@.len() as int) =~= c.infos().subrange(0, b.all_blocks@.len() as int).subrange(0, a.all_blocks@.len() as int));
    }
    assert forall|i: int| a.all_blocks@.len() <= i < c.all_blocks@.len() implies {
        &&& #[trigger] c.infos()[i].partition matches Some(p)
        &&& p.block_idx == dev
        &&& p.start + c.infos()[i].size <= c.infos()[dev].size
        &&& c.infos()[i].block_type != BlockType::Foreign
    } by {
        assert(c.infos()[dev] == b.infos()[dev]) by {
            assert(c.infos().subrange(0, b.all_blocks@.len() as int)[dev] == c.infos()[dev]);
        }
        if i < b.all_blocks@.len() {
            assert(c.infos().subrange(0, b.all_blocks@.len() as int)[i] == c.infos()[i]);
            assert(b.infos()[i].partition matches Some(p) && p.block_idx == dev);
        }
    }
}

/// Whether a table entry lists a partition: it has a size and a type.
pub open spec fn entry_listed(e: PartitionTableEntry) -> bool {
    e.size != 0 && e.partition_type != 0
}

/// Whether table entries `es` list no extended partition.
pub open spec fn no_extended(es: Seq<PartitionTableEntry>) -> bool {
    forall|k: int| 0 <= k < es.len() ==> !(entry_listed(#[trigger] es[k]) && spec_is_extended(es[k].partition_type))
}

/// The four entries of the partition table that bytes `b` encode.
pub open spec fn table_entries(b: Seq<u8>) -> Seq<PartitionTableEntry> {
    Seq::new(4, |i: int| spec_entry_from_bytes(b.subrange(446 + 16 * i, 462 + 16 * i)))
}

/// What entries `k..` of the table in sector `sector` of block `dev` (of
/// `dev_size` sectors, named `dev_name`) register, with `nr` partitions
/// counted and `len` blocks registered so far: each listed entry that is not
/// extended counts a partition, and is registered (named by its count) when
/// it lies within the block and another block can be registered. Gives the
/// blocks registered and the final count.
pub open spec fn table_effect(
    es: Seq<PartitionTableEntry>,
    k: int,
    sector: u32,
    dev: usize,
    dev_size: u32,
    dev_name: Seq<char>,
    nr: i32,
    len: int,
) -> (Seq<crate::block::block_core::BlockInfo>, i32)
    decreases es.len() - k,
{
    if k < 0 || k >= es.len() {
        (Seq::empty(), nr)
    } else {
        let e = es[k];
        if !entry_listed(e) || spec_is_extended(e.partition_type) {
            table_effect(es, k + 1, sector, dev, dev_size, dev_name, nr, len)
        } else {
            let n1 = nr.wrapping_add(1);
            let start = e.offset.wrapping_add(sector);
            if start < dev_size && start + e.size <= dev_size && len < usize::MAX {
                let rest = table_effect(es, k + 1, sector, dev, dev_size, dev_name, n1, len + 1);
                (
                    seq![
                        crate::block::block_core::BlockInfo {
                            name: spec_partition_name(dev_name, n1),
                            block_type: spec_partition_block_type(e.partition_type),
                            size: e.size,
                            partition: Some(Partition { block_idx: dev, start }),
                        },
                    ] + rest.0,
                    rest.1,
                )
            } else {
                table_effect(es, k + 1, sector, dev, dev_size, dev_name, n1, len)
            }
        }
    }
}

/// The first `j` blocks of `added`, those that a nested table read counting
/// up to `n` registered.
pub open spec fn split_prefix(added: Seq<crate::block::block_core::BlockInfo>, j: int, n: i32) -> Seq<crate::block::block_core::BlockInfo> {
    added.subrange(0, j)
}

/// What reading the partition table in sector `sector` of block `dev` (of
/// `dev_size` sectors, named `dev_name`, whose sectors hold `data` and are
/// known to read where `readable` says so) may register, following extended
/// partitions `depth` levels deep, with `nr` partitions counted and `len`
/// blocks registered so far: `added` the blocks registered, `nr_out` the final
/// count. A sector past the block, one that fails to read or one without the
/// 0xAA55 signature registers nothing; a table is registered as
/// `table_outcome` says.
pub open spec fn scan_outcome(
    data: spec_fn(int) -> Seq<u8>,
    readable: spec_fn(int) -> bool,
    dev: usize,
    dev_size: u32,
    dev_name: Seq<char>,
    sector: u32,
    pes: u32,
    nr: i32,
    len: int,
    depth: int,
    added: Seq<crate::block::block_core::BlockInfo>,
    nr_out: i32,
) -> bool
    decreases depth, 1int, 0int,
{
    let b = data(sector as int);
    if sector >= dev_size {
        added.len() == 0 && nr_out == nr
    } else {
        ||| !readable(sector as int) && added.len() == 0 && nr_out == nr
        ||| le16_at(b, 510) != 0xAA55 && added.len() == 0 && nr_out == nr
        ||| le16_at(b, 510) == 0xAA55 && table_outcome(
            data,
            readable,
            dev,
            dev_size,
            dev_name,
            table_entries(b),
            0,
            sector,
            pes,
            nr,
            len,
            depth,
            added,
            nr_out,
        )
    }
}

/// What entries `k..` of the table `es`, read from sector `sector` of block
/// `dev`, register (see `scan_outcome`): a listed entry that is not extended
/// counts a partition and is registered, named by its count, when it lies
/// within the block and another block can be registered; while `depth` is
/// positive, a listed extended entry has its own table read, at its offset
/// from the outermost extended partition `pes` (or from the block's start,
/// for an entry of the block's first table), one level less deep, and the
/// blocks that reading registers come next.
pub open spec fn table_outcome(
    data: spec_fn(int) -> Seq<u8>,
    readable: spec_fn(int) -> bool,
    dev: usize,
    dev_size: u32,
    dev_name: Seq<char>,
    es: Seq<PartitionTableEntry>,
    k: int,
    sector: u32,
    pes: u32,
    nr: i32,
    len: int,
    depth: int,
    added: Seq<crate::block::block_core::BlockInfo>,
    nr_out: i32,
) -> bool
    decreases depth, 0int, es.len() - k,
{
    if k < 0 || k >= es.len() {
        added.len() == 0 && nr_out == nr
    } else {
        let e = es[k];
        if !entry_listed(e) || (spec_is_extended(e.partition_type) && depth <= 0) {
            table_outcome(data, readable, dev, dev_size, dev_name, es, k + 1, sector, pes, nr, len, depth, added, nr_out)
        } else if spec_is_extended(e.partition_type) {
            let next = if sector == 0 { e.offset } else { e.offset.wrapping_add(pes) };
            let next_pes = if sector == 0 { e.offset } else { pes };
            exists|j: int, n1: i32|
                0 <= j <= added.len() && scan_outcome(
                    data,
                    readable,
                    dev,
                    dev_size,
                    dev_name,
                    next,
                    next_pes,
                    nr,
                    len,
                    depth - 1,
                    #[trigger] split_prefix(added, j, n1),
                    n1,
                ) && table_outcome(
                    data,
                    readable,
                    dev,
                    dev_size,
                    dev_name,
                    es,
                    k + 1,
                    sector,
                    pes,
                    n1,
                    len + j,
                    depth,
                    added.subrange(j, added.len() as int),
                    nr_out,
                )
        } else {
            let n1 = nr.wrapping_add(1);
            let start = e.offset.wrapping_add(sector);
            if start < dev_size && start + e.size <= dev_size && len < usize::MAX {
                &&& added.len() > 0
                &&& added[0] == (crate::block::block_core::BlockInfo {
                    name: spec_partition_name(dev_name, n1),
                    block_type: spec_partition_block_type(e.partition_type),
                    size: e.size,
                    partition: Some(Partition { block_idx: dev, start }),
                })
                &&& table_outcome(data, readable, dev, dev_size, dev_name, es, k + 1, sector, pes, n1, len + 1, depth, added.drop_first(), nr_out)
            } else {
                table_outcome(data, readable, dev, dev_size, dev_name, es, k + 1, sector, pes, n1, len, depth, added, nr_out)
            }
        }
    }
}

/// The bytes that the sectors of block `dev` of `m` hold.
pub open spec fn dev_data<D: BlockOp>(m: &BlockManager<D>, dev: int) -> spec_fn(int) -> Seq<u8> {
    |s: int| m.sector_data(dev, s)
}

/// Which sectors of block `dev` of `m` are known to read.
pub open spec fn dev_readable<D: BlockOp>(m: &BlockManager<D>, dev: int) -> spec_fn(int) -> bool {
    |s: int| m.sector_readable(dev, s)
}

/// `scan_outcome` for block `dev` of `m`, as `m` describes it.
pub open spec fn scan_outcome_in<D: BlockOp>(
    m: &BlockManager<D>,
    dev: usize,
    sector: u32,
    pes: u32,
    nr: i32,
    len: int,
    depth: int,
    added: Seq<crate::block::block_core::BlockInfo>,
    nr_out: i32,
) -> bool {
    scan_outcome(
        dev_data(m, dev as int),
        dev_readable(m, dev as int),
        dev,
        m.infos()[dev as int].size,
        m.infos()[dev as int].name,
        sector,
        pes,
        nr,
        len,
        depth,
        added,
        nr_out,
    )
}

/// `table_outcome` for block `dev` of `m`, as `m` describes it.
pub open spec fn table_outcome_in<D: BlockOp>(
    m: &BlockManager<D>,
    dev: usize,
    es: Seq<PartitionTableEntry>,
    k: int,
    sector: u32,
    pes: u32,
    nr: i32,
    len: int,
    depth: int,
    added: Seq<crate::block::block_core::BlockInfo>,
    nr_out: i32,
) -> bool {
    table_outcome(
        dev_data(m, dev as int),
        dev_readable(m, dev as int),
        dev,
        m.infos()[dev as int].size,
        m.infos()[dev as int].name,
        es,
        k,
        sector,
        pes,
        nr,
        len,
        depth,
        added,
        nr_out,
    )
}

/// A listed extended entry `k` of a table yields the blocks that reading its
/// own table registers, followed by what the entries after it register.
proof fn lemma_extended_step(
    data: spec_fn(int) -> Seq<u8>,
    readable: spec_fn(int) -> bool,
    dev: usize,
    dev_size: u32,
    dev_name: Seq<char>,
    es: Seq<PartitionTableEntry>,
    k: int,
    sector: u32,
    pes: u32,
    nr: i32,
    len: int,
    depth: int,
    a1: Seq<crate::block::block_core::BlockInfo>,
    n1: i32,
    rest: Seq<crate::block::block_core::BlockInfo>,
    nr_out: i32,
)
    requires
        0 <= k < es.len(),
        entry_listed(es[k]),
        spec_is_extended(es[k].partition_type),
        depth > 0,
        scan_outcome(
            data,
            readable,
            dev,
            dev_size,
            dev_name,
            if sector == 0 { es[k].offset } else { es[k].offset.wrapping_add(pes) },
            if sector == 0 { es[k].offset } else { pes },
            nr,
            len,
            depth - 1,
            a1,
            n1,
        ),
        table_outcome(data, readable, dev, dev_size, dev_name, es, k + 1, sector, pes, n1, len + a1.len(), depth, rest, nr_out),
    ensures
        table_outcome(data, readable, dev, dev_size, dev_name, es, k, sector, pes, nr, len, depth, a1 + rest, nr_out),
{
    let added = a1 + rest;
    let j = a1.len() as int;
    assert(split_prefix(added, j, n1) =~= a1);
    assert(added.subrange(j, added.len() as int) =~= rest);
}

/// A listed entry of an extended type (0x05 DOS extended, 0x0F W95
/// extended (LBA), 0x85 Linux extended, 0xC5 DRDOS extended), while tables
/// are still followed (`depth > 0`), is followed, not registered: what the
/// entries from it on register is what reading the table it points to
/// registers (from its offset, relative to the outermost extended partition
/// within an extended table), then what the entries after it register.
pub proof fn lemma_extended_entry_is_followed(
    data: spec_fn(int) -> Seq<u8>,
    readable: spec_fn(int) -> bool,
    dev: usize,
    dev_size: u32,
    dev_name: Seq<char>,
    es: Seq<PartitionTableEntry>,
    k: int,
    sector: u32,
    pes: u32,
    nr: i32,
    len: int,
    depth: int,
    added: Seq<crate::block::block_core::BlockInfo>,
    nr_out: i32,
)
    requires
        0 <= k < es.len(),
        es[k].size != 0,
        es[k].partition_type == 0x05 || es[k].partition_type == 0x0F || es[k].partition_type == 0x85
            || es[k].partition_type == 0xC5,
        depth > 0,
    ensures
        table_outcome(data, readable, dev, dev_size, dev_name, es, k, sector, pes, nr, len, depth, added, nr_out) <==> exists|
            j: int,
            n1: i32,
        |
            0 <= j <= added.len() && scan_outcome(
                data,
                readable,
                dev,
                dev_size,
                dev_name,
                if sector == 0 { es[k].offset } else { es[k].offset.wrapping_add(pes) },
                if sector == 0 { es[k].offset } else { pes },
                nr,
                len,
                depth - 1,
                #[trigger] split_prefix(added, j, n1),
                n1,
            ) && table_outcome(
                data,
                readable,
                dev,
                dev_size,
                dev_name,
                es,
                k + 1,
                sector,
                pes,
                n1,
                len + j,
                depth,
                added.subrange(j, added.len() as int),
                nr_out,
            ),
{
}

/// A listed entry of any other type is registered as a partition of the
/// block, `start` sectors from the block's start (its offset from the table's
/// own sector), when it lies within the block: it is never followed.
pub proof fn lemma_other_entry_is_registered(
    data: spec_fn(int) -> Seq<u8>,
    readable: spec_fn(int) -> bool,
    dev: usize,
    dev_size: u32,
    dev_name: Seq<char>,
    es: Seq<PartitionTableEntry>,
    k: int,
    sector: u32,
    pes: u32,
    nr: i32,
    len: int,
    depth: int,
    added: Seq<crate::block::block_core::BlockInfo>,
    nr_out: i32,
)
    requires
        0 <= k < es.len(),
        es[k].size != 0,
        es[k].partition_type != 0,
        es[k].partition_type != 0x05 && es[k].partition_type != 0x0F && es[k].partition_type != 0x85
            && es[k].partition_type != 0xC5,
        es[k].offset + sector < dev_size,
        es[k].offset + sector + es[k].size <= dev_size,
        len < usize::MAX,
        table_outcome(data, readable, dev, dev_size, dev_name, es, k, sector, pes, nr, len, depth, added, nr_out),
    ensures
        added.len() > 0,
        added[0].partition == Some(Partition { block_idx: dev, start: (es[k].offset + sector) as u32 }),
        added[0].size == es[k].size,
        added[0].name == spec_partition_name(dev_name, nr.wrapping_add(1)),
{
}

/// On a block whose every sector reads, reading a partition table has one
/// outcome: the blocks registered and the count are determined by what the
/// block holds.
pub proof fn lemma_scan_outcome_unique(
    data: spec_fn(int) -> Seq<u8>,
    readable: spec_fn(int) -> bool,
    dev: usize,
    dev_size: u32,
    dev_name: Seq<char>,
    sector: u32,
    pes: u32,
    nr: i32,
    len: int,
    depth: int,
    a1: Seq<crate::block::block_core::BlockInfo>,
    n1: i32,
    a2: Seq<crate::block::block_core::BlockInfo>,
    n2: i32,
)
    requires
        forall|s: int| 0 <= s < dev_size ==> #[trigger] readable(s),
        scan_outcome(data, readable, dev, dev_size, dev_name, sector, pes, nr, len, depth, a1, n1),
        scan_outcome(data, readable, dev, dev_size, dev_name, sector, pes, nr, len, depth, a2, n2),
    ensures
        a1 == a2,
        n1 == n2,
    decreases depth, 1int, 0int,
{
    if sector >= dev_size {
        assert(a1 =~= a2);
    } else {
        assert(readable(sector as int));
        let b = data(sector as int);
        if le16_at(b, 510) != 0xAA55 {
            assert(a1 =~= a2);
        } else {
            lemma_table_outcome_unique(data, readable, dev, dev_size, dev_name, table_entries(b), 0, sector, pes, nr, len, depth,
                a1, n1, a2, n2);
        }
    }
}

/// On a block whose every sector reads, the entries `k..` of a table have
/// one outcome.
pub proof fn lemma_table_outcome_unique(
    data: spec_fn(int) -> Seq<u8>,
    readable: spec_fn(int) -> bool,
    dev: usize,
    dev_size: u32,
    dev_name: Seq<char>,
    es: Seq<PartitionTableEntry>,
    k: int,
    sector: u32,
    pes: u32,
    nr: i32,
    len: int,
    depth: int,
    a1: Seq<crate::block::block_core::BlockInfo>,
    n1: i32,
    a2: Seq<crate::block::block_core::BlockInfo>,
    n2: i32,
)
    requires
        forall|s: int| 0 <= s < dev_size ==> #[trigger] readable(s),
        table_outcome(data, readable, dev, dev_size, dev_name, es, k, sector, pes, nr, len, depth, a1, n1),
        table_outcome(data, readable, dev, dev_size, dev_name, es, k, sector, pes, nr, len, depth, a2, n2),
    ensures
        a1 == a2,
        n1 == n2,
    decreases depth, 0int, es.len() - k,
{
    if k < 0 || k >= es.len() {
        assert(a1 =~= a2);
    } else {
        let e = es[k];
        if !entry_listed(e) || (spec_is_extended(e.partition_type) && depth <= 0) {
            lemma_table_outcome_unique(data, readable, dev, dev_size, dev_name, es, k + 1, sector, pes, nr, len, depth, a1, n1, a2, n2);
        } else if spec_is_extended(e.partition_type) {
            let next = if sector == 0 { e.offset } else { e.offset.wrapping_add(pes) };
            let next_pes = if sector == 0 { e.offset } else { pes };
            let (j1, m1) = choose|j: int, m: i32|
                0 <= j <= a1.len() && scan_outcome(data, readable, dev, dev_size, dev_name, next, next_pes, nr, len, depth - 1,
                    #[trigger] split_prefix(a1, j, m), m) && table_outcome(data, readable, dev, dev_size, dev_name, es, k + 1,
                    sector, pes, m, len + j, depth, a1.subrange(j, a1.len() as int), n1);
            let (j2, m2) = choose|j: int, m: i32|
                0 <= j <= a2.len() && scan_outcome(data, readable, dev, dev_size, dev_name, next, next_pes, nr, len, depth - 1,
                    #[trigger] split_prefix(a2, j, m), m) && table_outcome(data, readable, dev, dev_size, dev_name, es, k + 1,
                    sector, pes, m, len + j, depth, a2.subrange(j, a2.len() as int), n2);
            lemma_scan_outcome_unique(data, readable, dev, dev_size, dev_name, next, next_pes, nr, len, depth - 1,
                split_prefix(a1, j1, m1), m1, split_prefix(a2, j2, m2), m2);
            assert(j1 == split_prefix(a1, j1, m1).len());
            assert(j2 == split_prefix(a2, j2, m2).len());
            lemma_table_outcome_unique(data, readable, dev, dev_size, dev_name, es, k + 1, sector, pes, m1, len + j1, depth,
                a1.subrange(j1, a1.len() as int), n1, a2.subrange(j2, a2.len() as int), n2);
            assert(a1 =~= split_prefix(a1, j1, m1) + a1.subrange(j1, a1.len() as int));
            assert(a2 =~= split_prefix(a2, j2, m2) + a2.subrange(j2, a2.len() as int));
        } else {
            let m = nr.wrapping_add(1);
            let start = e.offset.wrapping_add(sector);
            if start < dev_size && start + e.size <= dev_size && len < usize::MAX {
                lemma_table_outcome_unique(data, readable, dev, dev_size, dev_name, es, k + 1, sector, pes, m, len + 1, depth,
                    a1.drop_first(), n1, a2.drop_first(), n2);
                assert(a1 =~= seq![a1[0]] + a1.drop_first());
                assert(a2 =~= seq![a2[0]] + a2.drop_first());
            } else {
                lemma_table_outcome_unique(data, readable, dev, dev_size, dev_name, es, k + 1, sector, pes, m, len, depth, a1, n1, a2, n2);
            }
        }
    }
}

/// A scan leaves what block `dev` holds, reads and is as it was.
proof fn lemma_scan_keeps_dev<D: BlockOp>(a: &BlockManager<D>, b: &BlockManager<D>, dev: int)
    requires
        scan_keeps(a, b),
        0 <= dev < a.all_blocks@.len(),
    ensures
        dev_data(b, dev) == dev_data(a, dev),
        dev_readable(b, dev) == dev_readable(a, dev),
        b.infos()[dev] == a.infos()[dev],
{
    assert(dev_data(b, dev) =~= dev_data(a, dev)) by {
        assert forall|s: int| #[trigger] dev_data(b, dev)(s) == dev_data(a, dev)(s) by {
            assert(b.sector_data(dev, s) == a.sector_data(dev, s));
        }
    }
    assert(dev_readable(b, dev) =~= dev_readable(a, dev)) by {
        assert forall|s: int| #[trigger] dev_readable(b, dev)(s) == dev_readable(a, dev)(s) by {
            assert(b.sector_readable(dev, s) == a.sector_readable(dev, s));
        }
    }
    assert(b.infos().subrange(0, a.all_blocks@.len() as int)[dev] == b.infos()[dev]);
}

/// Registers the partitions that table `pt`, read from sector `sector` of
/// block `dev`, lists, following extended partitions up to `depth` levels
/// (see `read_partition_table`): the blocks registered and the count are an
/// outcome that `table_outcome` allows, the only one where every nested table
/// reads. Where `depth` is 0 or the table lists no extended partition, they
/// are exactly `table_effect`.
pub fn register_table_partitions<D: BlockOp>(
    manager: &mut BlockManager<D>,
    dev: usize,
    sector: BlockSector,
    primary_extended_sector: BlockSector,
    pt: &PartitionTable,
    part_nr: &mut i32,
    depth: u32,
)
    requires
        old(manager).wf(),
        dev < old(manager).all_blocks@.len(),
    ensures
        scan_keeps(old(manager), final(manager)),
        new_blocks_are_partitions_of(final(manager), old(manager).all_blocks@.len() as int, dev as int),
        table_outcome_in(
            old(manager),
            dev,
            pt.entries@,
            0,
            sector,
            primary_extended_sector,
            *old(part_nr),
            old(manager).all_blocks@.len() as int,
            depth as int,
            final(manager).infos().subrange(old(manager).all_blocks@.len() as int, final(manager).all_blocks@.len() as int),
            *final(part_nr),
        ),
        depth == 0 || no_extended(pt.entries@) ==> {
            let eff = table_effect(
                pt.entries@,
                0,
                sector,
                dev,
                old(manager).infos()[dev as int].size,
                old(manager).infos()[dev as int].name,
                *old(part_nr),
                old(manager).all_blocks@.len() as int,
            );
            &&& final(manager).infos() == old(manager).infos() + eff.0
            &&& *final(part_nr) == eff.1
        },
    decreases depth, 0u32,
{
    let ghost m0 = *manager;
    let ghost l0 = m0.all_blocks@.len() as int;
    let ghost es = pt.entries@;
    let ghost pes = primary_extended_sector;
    let ghost dev_size = m0.infos()[dev as int].size;
    let ghost dev_name = m0.infos()[dev as int].name;
    let ghost whole = table_effect(es, 0, sector, dev, dev_size, dev_name, *old(part_nr), m0.all_blocks@.len() as int);
    proof {
        lemma_scan_keeps_refl(manager);
        assert(m0.infos() + Seq::<crate::block::block_core::BlockInfo>::empty() =~= m0.infos());
        assert forall|rest: Seq<crate::block::block_core::BlockInfo>, nout: i32|
            #[trigger] table_outcome_in(&m0, dev, es, 0, sector, pes, *part_nr, l0, depth as int, rest, nout) implies
            table_outcome_in(&m0, dev, es, 0, sector, pes, *old(part_nr), l0, depth as int,
                manager.infos().subrange(l0, manager.all_blocks@.len() as int) + rest, nout) by {
            assert(manager.infos().subrange(l0, manager.all_blocks@.len() as int) + rest =~= rest);
        }
    }
    let mut i: usize = 0;
    while i < 4
        invariant
            0 <= i <= 4,
            es == pt.entries@,
            es.len() == 4,
            pes == primary_extended_sector,
            l0 == m0.all_blocks@.len(),
            dev < m0.all_blocks@.len(),
            dev_size == m0.infos()[dev as int].size,
            dev_name == m0.infos()[dev as int].name,
            whole == table_effect(es, 0, sector, dev, dev_size, dev_name, *old(part_nr), m0.all_blocks@.len() as int),
            scan_keeps(&m0, manager),
            new_blocks_are_partitions_of(manager, m0.all_blocks@.len() as int, dev as int),
            forall|rest: Seq<crate::block::block_core::BlockInfo>, nout: i32|
                #[trigger] table_outcome_in(&m0, dev, es, i as int, sector, pes, *part_nr, manager.all_blocks@.len() as int, depth as int, rest, nout)
                    ==> table_outcome_in(&m0, dev, es, 0, sector, pes, *old(part_nr), l0, depth as int,
                    manager.infos().subrange(l0, manager.all_blocks@.len() as int) + rest, nout),
            depth == 0 || no_extended(es) ==> {
                let rest = table_effect(es, i as int, sector, dev, dev_size, dev_name, *part_nr, manager.all_blocks@.len() as int);
                &&& m0.infos() + whole.0 == manager.infos() + rest.0
                &&& whole.1 == rest.1
            },
        decreases 4 - i,
    {
        let entry = pt.entries[i];
        let ghost m1 = *manager;
        let ghost nr1 = *part_nr;
        let ghost len1 = m1.all_blocks@.len() as int;
        let ghost added1 = m1.infos().subrange(l0, len1);
        assert(entry == es[i as int]);
        assert(forall|rest: Seq<crate::block::block_core::BlockInfo>, nout: i32|
            #[trigger] table_outcome_in(&m0, dev, es, i as int, sector, pes, nr1, len1, depth as int, rest, nout)
                ==> table_outcome_in(&m0, dev, es, 0, sector, pes, *old(part_nr), l0, depth as int, added1 + rest, nout));
        if entry.size == 0 || entry.partition_type == 0 {
            proof {
                assert forall|rest: Seq<crate::block::block_core::BlockInfo>, nout: i32|
                    #[trigger] table_outcome_in(&m0, dev, es, i + 1, sector, pes, nr1, len1, depth as int, rest, nout) implies
                    table_outcome_in(&m0, dev, es, 0, sector, pes, *old(part_nr), l0, depth as int, added1 + rest, nout) by {
                    assert(table_outcome_in(&m0, dev, es, i as int, sector, pes, nr1, len1, depth as int, rest, nout));
                }
            }
        } else if is_extended(entry.partition_type) {
            if depth == 0 {
                proof {
                    assert forall|rest: Seq<crate::block::block_core::BlockInfo>, nout: i32|
                        #[trigger] table_outcome_in(&m0, dev, es, i + 1, sector, pes, nr1, len1, depth as int, rest, nout) implies
                        table_outcome_in(&m0, dev, es, 0, sector, pes, *old(part_nr), l0, depth as int, added1 + rest, nout) by {
                        assert(table_outcome_in(&m0, dev, es, i as int, sector, pes, nr1, len1, depth as int, rest, nout));
                    }
                }
            } else {
                if sector == 0 {
                    read_partition_table(manager, dev, entry.offset, entry.offset, part_nr, depth - 1);
                } else {
                    read_partition_table(
                        manager,
                        dev,
                        entry.offset.wrapping_add(primary_extended_sector),
                        primary_extended_sector,
                        part_nr,
                        depth - 1,
                    );
                }
                proof {
                    lemma_scan_keeps_trans(&m0, &m1, manager, dev as int);
                    lemma_scan_keeps_dev(&m0, &m1, dev as int);
                    let len2 = manager.all_blocks@.len() as int;
                    let a1 = manager.infos().subrange(len1, len2);
                    let n2 = *part_nr;
                    assert(manager.infos().subrange(l0, len2) =~= added1 + a1) by {
                        assert(manager.infos().subrange(0, len1) == m1.infos());
                        assert forall|k: int| l0 <= k < len1 implies #[trigger] manager.infos()[k] == m1.infos()[k] by {
                            assert(manager.infos().subrange(0, len1)[k] == manager.infos()[k]);
                        }
                    }
                    assert forall|rest: Seq<crate::block::block_core::BlockInfo>, nout: i32|
                        #[trigger] table_outcome_in(&m0, dev, es, i + 1, sector, pes, n2, len2, depth as int, rest, nout) implies
                        table_outcome_in(&m0, dev, es, 0, sector, pes, *old(part_nr), l0, depth as int,
                            manager.infos().subrange(l0, len2) + rest, nout) by {
                        let ar = a1 + rest;
                        assert(ar.subrange(0, a1.len() as int) =~= a1);
                        assert(ar.subrange(a1.len() as int, ar.len() as int) =~= rest);
                        let next = if sector == 0 { entry.offset } else { entry.offset.wrapping_add(pes) };
                        let next_pes = if sector == 0 { entry.offset } else { pes };
                        assert(scan_outcome_in(&m0, dev, next, next_pes, nr1, len1, depth - 1, ar.subrange(0, a1.len() as int), n2));
                        assert(len1 + a1.len() == len2);
                        assert(table_outcome_in(&m0, dev, es, i + 1, sector, pes, n2, len1 + a1.len(), depth as int,
                            ar.subrange(a1.len() as int, ar.len() as int), nout));
                        lemma_extended_step(dev_data(&m0, dev as int), dev_readable(&m0, dev as int), dev, dev_size, dev_name,
                            es, i as int, sector, pes, nr1, len1, depth as int, a1, n2, rest, nout);
                        assert(table_outcome_in(&m0, dev, es, i as int, sector, pes, nr1, len1, depth as int, ar, nout));
                        assert(added1 + ar =~= manager.infos().subrange(l0, len2) + rest);
                    }
                }
            }
        } else {
            *part_nr = part_nr.wrapping_add(1);
            assert(m1.infos()[dev as int] == m0.infos()[dev as int]) by {
                assert(m1.infos().subrange(0, m0.all_blocks@.len() as int)[dev as int] == m1.infos()[dev as int]);
            }
            let registered = found_partition(manager, dev, entry.partition_type, entry.offset.wrapping_add(sector), entry.size, *part_nr);
            proof {
                lemma_scan_keeps_trans(&m0, &m1, manager, dev as int);
                let len2 = manager.all_blocks@.len() as int;
                if registered {
                    assert(manager.infos() =~= m1.infos().push(manager.infos().last())) by {
                        assert(manager.infos().subrange(0, m1.all_blocks@.len() as int) =~= m1.infos());
                    }
                } else {
                    assert(manager.infos() =~= m1.infos()) by {
                        assert(manager.infos().subrange(0, m1.all_blocks@.len() as int) =~= m1.infos());
                    }
                }
                assert forall|rest: Seq<crate::block::block_core::BlockInfo>, nout: i32|
                    #[trigger] table_outcome_in(&m0, dev, es, i + 1, sector, pes, *part_nr, len2, depth as int, rest, nout) implies
                    table_outcome_in(&m0, dev, es, 0, sector, pes, *old(part_nr), l0, depth as int,
                        manager.infos().subrange(l0, len2) + rest, nout) by {
                    if registered {
                        let ar = seq![manager.infos().last()] + rest;
                        assert(ar.drop_first() =~= rest);
                        assert(table_outcome_in(&m0, dev, es, i as int, sector, pes, nr1, len1, depth as int, ar, nout));
                        assert(added1 + ar =~= manager.infos().subrange(l0, len2) + rest);
                    } else {
                        assert(table_outcome_in(&m0, dev, es, i as int, sector, pes, nr1, len1, depth as int, rest, nout));
                        assert(manager.infos().subrange(l0, len2) =~= added1);
                    }
                }
                if depth == 0 || no_extended(es) {
                    let rest1 = table_effect(es, i + 1, sector, dev, dev_size, dev_name, *part_nr, manager.all_blocks@.len() as int);
                    if registered {
                        assert(m1.infos() + (seq![manager.infos().last()] + rest1.0) =~= manager.infos() + rest1.0);
                    }
                }
            }
        }
        i = i + 1;
    }
    proof {
        assert(table_outcome_in(&m0, dev, es, 4, sector, pes, *part_nr, manager.all_blocks@.len() as int, depth as int,
            Seq::<crate::block::block_core::BlockInfo>::empty(), *part_nr));
        assert(manager.infos().subrange(l0, manager.all_blocks@.len() as int) + Seq::<crate::block::block_core::BlockInfo>::empty()
            =~= manager.infos().subrange(l0, manager.all_blocks@.len() as int));
        if depth == 0 || no_extended(es) {
            assert(manager.infos() + Seq::<crate::block::block_core::BlockInfo>::empty() =~= manager.infos());
        }
    }
}

/// Reads the partition table in sector `sector` of block `dev` and registers
/// the partitions it lists, following extended partitions up to `depth` levels.
/// `primary_extended_sector` is the sector of the outermost extended partition,
/// relative to which nested extended tables are located; `part_nr` counts the
/// primary partitions found. Where the read fails or the sector holds no
/// table (no 0xAA55 signature), nothing is registered; otherwise the table
/// that the sector's bytes encode is registered as `register_table_partitions`
/// does. What is registered is an outcome that `scan_outcome` allows: a
/// sector that the device promises to read is read.
pub fn read_partition_table<D: BlockOp>(
    manager: &mut BlockManager<D>,
    dev: usize,
    sector: BlockSector,
    primary_extended_sector: BlockSector,
    part_nr: &mut i32,
    depth: u32,
)
    requires
        old(manager).wf(),
        dev < old(manager).all_blocks@.len(),
    ensures
        scan_keeps(old(manager), final(manager)),
        new_blocks_are_partitions_of(final(manager), old(manager).all_blocks@.len() as int, dev as int),
        sector >= old(manager).all_blocks@[dev as int].block_size ==> *final(manager) == *old(manager) && *final(part_nr)
            == *old(part_nr),
        scan_outcome_in(
            old(manager),
            dev,
            sector,
            primary_extended_sector,
            *old(part_nr),
            old(manager).all_blocks@.len() as int,
            depth as int,
            final(manager).infos().subrange(old(manager).all_blocks@.len() as int, final(manager).all_blocks@.len() as int),
            *final(part_nr),
        ),
        ({
            let b = old(manager).sector_data(dev as int, sector as int);
            let es = table_entries(b);
            let eff = table_effect(
                es,
                0,
                sector,
                dev,
                old(manager).infos()[dev as int].size,
                old(manager).infos()[dev as int].name,
                *old(part_nr),
                old(manager).all_blocks@.len() as int,
            );
            ||| final(manager).infos() == old(manager).infos() && *final(part_nr) == *old(part_nr)
            ||| le16_at(b, 510) == 0xAA55 && (depth == 0 || no_extended(es) ==> final(manager).infos() == old(manager).infos()
                + eff.0 && *final(part_nr) == eff.1)
        }),
    decreases depth, 1u32,
{
    let ghost m0 = *manager;
    let ghost l0 = m0.all_blocks@.len() as int;
    proof {
        lemma_scan_keeps_refl(manager);
        assert(m0.infos().subrange(l0, l0).len() == 0);
    }
    if sector >= manager.all_blocks[dev].block_size {
        return;
    }
    let mut buf = vec![0u8; BLOCK_SECTOR_SIZE];
    let ret = manager.read(dev, sector, buf.as_mut_slice());
    proof {
        assert(manager.infos().subrange(0, m0.all_blocks@.len() as int) =~= m0.infos());
    }
    if ret.is_err() {
        return;
    }
    let pt = PartitionTable::new(buf.as_slice());
    if pt.signature != 0xAA55 {
        return;
    }
    proof {
        assert(pt.entries@ =~= table_entries(m0.sector_data(dev as int, sector as int)));
    }
    let ghost m1 = *manager;
    proof {
        lemma_scan_keeps_dev(&m0, &m1, dev as int);
    }
    register_table_partitions(manager, dev, sector, primary_extended_sector, &pt, part_nr, depth);
    proof {
        lemma_scan_keeps_trans(&m0, &m1, manager, dev as int);
        assert(table_outcome_in(&m0, dev, table_entries(m0.sector_data(dev as int, sector as int)), 0, sector,
            primary_extended_sector, *old(part_nr), l0, depth as int,
            manager.infos().subrange(l0, manager.all_blocks@.len() as int), *part_nr));
    }
}

/// Scans block `dev` for partitions and registers each one found. Returns the
/// number of primary partitions that the partition tables list.
pub fn partition_scan<D: BlockOp>(manager: &mut BlockManager<D>, dev: usize) -> (part_nr: i32)
    requires
        old(manager).wf(),
        dev < old(manager).all_blocks@.len(),
    ensures
        scan_keeps(old(manager), final(manager)),
        new_blocks_are_partitions_of(final(manager), old(manager).all_blocks@.len() as int, dev as int),
        old(manager).all_blocks@[dev as int].block_size == 0 ==> *final(manager) == *old(manager) && part_nr == 0,
        scan_outcome_in(
            old(manager),
            dev,
            0,
            0,
            0,
            old(manager).all_blocks@.len() as int,
            MAX_PARTITION_TABLE_DEPTH as int,
            final(manager).infos().subrange(old(manager).all_blocks@.len() as int, final(manager).all_blocks@.len() as int),
            part_nr,
        ),
        ({
            let b = old(manager).sector_data(dev as int, 0);
            let es = table_entries(b);
            let eff = table_effect(
                es,
                0,
                0,
                dev,
                old(manager).infos()[dev as int].size,
                old(manager).infos()[dev as int].name,
                0,
                old(manager).all_blocks@.len() as int,
            );
            ||| final(manager).infos() == old(manager).infos() && part_nr == 0
            ||| le16_at(b, 510) == 0xAA55 && (no_extended(es) ==> final(manager).infos() == old(manager).infos() + eff.0
                && part_nr == eff.1)
        }),
{
    let mut part_nr: i32 = 0;
    read_partition_table(manager, dev, 0, 0, &mut part_nr, MAX_PARTITION_TABLE_DEPTH);
    part_nr
}

} // verus!
