use kidneyos::block::block_core::{BlockDriver, BlockManager, BlockType};
use kidneyos::block::partitions::partition_core::{
    partition_scan, partition_type_name, register_table_partitions, PartitionTable, PartitionTableEntry,
};
use kidneyos::bytes::{is_valid_utf8, read_u16_le, read_u32_le, read_u64_le};
use kidneyos::dev::tempfs::TempFs;
use kidneyos::fs::fat::fat::{Fat, FatEntry, FatType};
use kidneyos::fs::fat::free_set::FreeSet;
use kidneyos::fs::path::{chdir_path, dirname_and_filename};

#[test]
fn little_endian_reads() {
    let b = [0x01u8, 0x02, 0x03, 0x04, 0x05, 0x06, 0x07, 0x08];
    assert_eq!(read_u16_le(&b, 0), 0x0201);
    assert_eq!(read_u16_le(&b, 6), 0x0807);
    assert_eq!(read_u32_le(&b, 0), 0x04030201);
    assert_eq!(read_u32_le(&b, 4), 0x08070605);
    assert_eq!(read_u64_le(&b, 0), 0x0807060504030201);
}

#[test]
fn utf8_validity() {
    assert!(is_valid_utf8(b""));
    assert!(is_valid_utf8("h\u{e9}llo \u{65e5}\u{1f600}".as_bytes()));
    assert!(!is_valid_utf8(&[0xC3, 0x28]));
    assert!(!is_valid_utf8(&[0xE0, 0x80, 0x80])); // overlong
    assert!(!is_valid_utf8(&[0xED, 0xA0, 0x80])); // surrogate
    assert!(!is_valid_utf8(&[0xF4, 0x90, 0x80, 0x80])); // past U+10FFFF
    assert!(!is_valid_utf8(&[0xF0, 0x9F, 0x98])); // cut short
    for s in ["", "a", "\u{7f}", "\u{80}", "\u{7ff}", "\u{800}", "\u{ffff}", "\u{10000}", "\u{10ffff}"] {
        assert!(is_valid_utf8(s.as_bytes()));
    }
}

#[test]
fn dirname_and_filename_split_at_the_last_slash() {
    assert_eq!(dirname_and_filename(b"/foo/bar"), (b"/foo".to_vec(), b"bar".to_vec()));
    assert_eq!(dirname_and_filename(b"/foo"), (b"/".to_vec(), b"foo".to_vec()));
    assert_eq!(dirname_and_filename(b"foo"), (b".".to_vec(), b"foo".to_vec()));
    assert_eq!(dirname_and_filename(b"/a/b/"), (b"/a/b".to_vec(), b"".to_vec()));
}

#[test]
fn chdir_paths() {
    let root = b"/".to_vec();
    assert_eq!(chdir_path(&root, b"/a/b"), Some(b"/a/b".to_vec()));
    let cwd = b"/a/b".to_vec();
    assert_eq!(chdir_path(&cwd, b"c"), Some(b"/a/b/c".to_vec()));
    assert_eq!(chdir_path(&cwd, b".."), Some(b"/a".to_vec()));
    assert_eq!(chdir_path(&cwd, b"./c/../d"), Some(b"/a/b/d".to_vec()));
    assert_eq!(chdir_path(&cwd, b"/x"), Some(b"/x".to_vec()));
}

#[test]
fn fat_entries_round_trip() {
    for e in [FatEntry::Free, FatEntry::Eof, FatEntry::Defective, FatEntry::HasNext(2), FatEntry::HasNext(0xFFF0)] {
        let v16 = e.fat16_value();
        let v32 = e.fat32_value();
        assert!(v16 != 0 || e == FatEntry::Free);
        assert!(v32 != 0 || e == FatEntry::Free);
    }
    assert_eq!(FatEntry::Eof.fat16_value(), 0xFFFF);
    assert_eq!(FatEntry::Defective.fat16_value(), 0xFFF7);
    assert_eq!(FatEntry::HasNext(7).fat32_value(), 7);
    assert!(FatEntry::Eof.is_allocated());
    assert!(FatEntry::HasNext(3).is_allocated());
    assert!(!FatEntry::Free.is_allocated());
    assert!(FatEntry::Free.is_free());
}

fn fat16_table(values: &[u16]) -> Vec<u8> {
    let mut v = vec![0u8; 512];
    for (i, x) in values.iter().enumerate() {
        v[2 * i..2 * i + 2].copy_from_slice(&x.to_le_bytes());
    }
    v
}

#[test]
fn fat_follows_and_grows_chains() {
    // clusters 2 -> 3 -> 5 (end); 4 is free
    let data = fat16_table(&[0xFFF8, 0xFFFF, 3, 5, 0, 0xFFFF]);
    let mut fat = Fat::from_bytes(data, 10, FatType::Fat16, 1, 1, 2).unwrap();
    assert_eq!(fat.entry(2), FatEntry::HasNext(3));
    assert_eq!(fat.next_cluster(2).unwrap(), Some(3));
    assert_eq!(fat.next_cluster(3).unwrap(), Some(5));
    assert_eq!(fat.next_cluster(5).unwrap(), None);
    assert!(fat.is_cluster_allocated(3));
    assert!(!fat.is_cluster_allocated(4));
    // a new cluster for the chain's end is a free one, linked in
    let c = fat.link_new_cluster(5).unwrap();
    assert!(c != 2 && c != 3 && c != 5);
    assert_eq!(fat.next_cluster(5).unwrap(), Some(c));
    assert_eq!(fat.next_cluster(c).unwrap(), None);
    fat.free_cluster(c);
    assert!(!fat.is_cluster_allocated(c));
    fat.set_eof(5);
    assert_eq!(fat.next_cluster(5).unwrap(), None);
}

#[test]
fn fat_refuses_a_chain_out_of_range() {
    let data = fat16_table(&[0xFFF8, 0xFFFF, 50]);
    assert!(Fat::from_bytes(data, 10, FatType::Fat16, 1, 1, 2).is_err());
}

#[test]
fn free_set_allocates_each_slot_once() {
    let mut s = FreeSet::new_all_allocated(100);
    assert_eq!(s.allocate(), None);
    s.free(70);
    s.free(3);
    let a = s.allocate().unwrap();
    let b = s.allocate().unwrap();
    assert!(a != b);
    assert!([3, 70].contains(&a) && [3, 70].contains(&b));
    assert_eq!(s.allocate(), None);
}

#[test]
fn partition_entries_round_trip() {
    let mut buf = [0u8; 16];
    buf[0] = 0x80;
    buf[4] = 0x0C;
    buf[8..12].copy_from_slice(&2048u32.to_le_bytes());
    buf[12..16].copy_from_slice(&4096u32.to_le_bytes());
    let e = PartitionTableEntry::new(&buf);
    assert_eq!(e.get_partition_type(), 0x0C);
    assert_eq!(e.get_offset(), 2048);
    assert_eq!(e.get_size(), 4096);
    assert!(!e.is_empty());
    let mut out = [0u8; 16];
    e.serialize(&mut out);
    assert_eq!(out, buf);
    assert_eq!(partition_type_name(0x0C), "W95 FAT32 (LBA)");
    assert_eq!(partition_type_name(0x83), "Linux");
}

/// A disk of `sectors` sectors with an MBR listing one file-system partition.
fn mbr_disk(sectors: usize, start: u32, size: u32) -> Vec<u8> {
    let mut disk = vec![0u8; sectors * 512];
    let e = 446;
    disk[e + 4] = 0x21;
    disk[e + 8..e + 12].copy_from_slice(&start.to_le_bytes());
    disk[e + 12..e + 16].copy_from_slice(&size.to_le_bytes());
    disk[510] = 0x55;
    disk[511] = 0xAA;
    disk
}

#[test]
fn partition_table_parses_and_serializes() {
    let disk = mbr_disk(4, 1, 3);
    let t = PartitionTable::new(&disk[..512]);
    let mut out = vec![0u8; 512];
    t.serialize(&mut out);
    assert_eq!(&out[..], &disk[..512]);
}

#[test]
fn partition_scan_registers_the_partitions() {
    let disk = mbr_disk(64, 8, 32);
    let mut m: BlockManager<TempFs> = BlockManager::new();
    let dev = m.register_block(BlockType::Raw, "hd0", 64, BlockDriver::Device(TempFs::from_bytes(disk)));
    let n = partition_scan(&mut m, dev);
    assert_eq!(n, 1);
    assert_eq!(m.len(), 2);
    let p = m.by_id(1).unwrap();
    assert_eq!(p.get_size(), 32);
    assert_eq!(p.get_type(), BlockType::FileSystem);
    match &p.driver {
        BlockDriver::Partition(part) => {
            assert_eq!(part.block_idx, 0);
            assert_eq!(part.start, 8);
        },
        BlockDriver::Device(_) => panic!("not a partition"),
    }
}

#[test]
fn block_manager_reads_and_writes_through_partitions() {
    let disk = mbr_disk(64, 8, 32);
    let mut m: BlockManager<TempFs> = BlockManager::new();
    let dev = m.register_block(BlockType::Raw, "hd0", 64, BlockDriver::Device(TempFs::from_bytes(disk)));
    partition_scan(&mut m, dev);
    let data = [0x5Au8; 512];
    m.write(1, 2, &data).unwrap();
    let mut back = [0u8; 512];
    m.read(0, 10, &mut back).unwrap();
    assert_eq!(back, data);
    let mut back2 = [0u8; 512];
    m.read(1, 2, &mut back2).unwrap();
    assert_eq!(back2, data);
    assert!(m.read(1, 32, &mut back2).is_err());
    assert!(m.by_name("hd0").is_some());
    assert!(m.by_name("nope").is_none());
}

#[test]
fn register_table_partitions_counts_every_listed_entry() {
    // entry 0 fits, entry 1 runs past the device, entry 2 is empty, entry 3 fits
    let mut sector = vec![0u8; 512];
    for (k, (ty, start, size)) in [(0x83u8, 4u32, 10u32), (0x83, 60, 10), (0, 0, 0), (0x0b, 20, 8)].iter().enumerate() {
        let e = 446 + 16 * k;
        sector[e + 4] = *ty;
        sector[e + 8..e + 12].copy_from_slice(&start.to_le_bytes());
        sector[e + 12..e + 16].copy_from_slice(&size.to_le_bytes());
    }
    sector[510] = 0x55;
    sector[511] = 0xAA;
    let pt = PartitionTable::new(&sector);
    let mut m: BlockManager<TempFs> = BlockManager::new();
    let dev = m.register_block(BlockType::Raw, "hd0", 64, BlockDriver::Device(TempFs::from_bytes(vec![0u8; 64 * 512])));
    let mut nr = 0i32;
    register_table_partitions(&mut m, dev, 0, 0, &pt, &mut nr, 0);
    assert_eq!(nr, 3);
    assert_eq!(m.len(), 3);
    assert_eq!(m.by_id(1).unwrap().get_name(), "hd0-1");
    assert_eq!(m.by_id(1).unwrap().get_size(), 10);
    assert_eq!(m.by_id(2).unwrap().get_name(), "hd0-3");
    assert_eq!(m.by_id(2).unwrap().get_size(), 8);
}

/// Writes partition table entry `k` (type, start, size) into the table of `sector`.
fn put_entry(sector: &mut [u8], k: usize, ty: u8, start: u32, size: u32) {
    let e = 446 + 16 * k;
    sector[e + 4] = ty;
    sector[e + 8..e + 12].copy_from_slice(&start.to_le_bytes());
    sector[e + 12..e + 16].copy_from_slice(&size.to_le_bytes());
    sector[510] = 0x55;
    sector[511] = 0xAA;
}

#[test]
fn partition_scan_follows_extended_partitions() {
    // sector 0: an extended partition at 10 and a primary one at 2;
    // sector 10: a logical partition 1 past it, and the next table 20 past
    // the outermost extended partition (sector 30), which lists one more
    let mut disk = vec![0u8; 64 * 512];
    put_entry(&mut disk[..512], 0, 0x05, 10, 40);
    put_entry(&mut disk[..512], 1, 0x83, 2, 4);
    put_entry(&mut disk[10 * 512..11 * 512], 0, 0x83, 1, 5);
    put_entry(&mut disk[10 * 512..11 * 512], 1, 0x05, 20, 10);
    put_entry(&mut disk[30 * 512..31 * 512], 0, 0x83, 1, 3);
    let mut m: BlockManager<TempFs> = BlockManager::new();
    let dev = m.register_block(BlockType::Raw, "hd0", 64, BlockDriver::Device(TempFs::from_bytes(disk)));
    let n = partition_scan(&mut m, dev);
    assert_eq!(n, 3);
    assert_eq!(m.len(), 4);
    let expect = [("hd0-1", 11u32, 5u32), ("hd0-2", 31, 3), ("hd0-3", 2, 4)];
    for (k, (name, start, size)) in expect.iter().enumerate() {
        let b = m.by_id(k + 1).unwrap();
        assert_eq!(b.get_name(), *name);
        assert_eq!(b.get_size(), *size);
        match &b.driver {
            BlockDriver::Partition(p) => assert_eq!((p.block_idx, p.start), (dev, *start)),
            BlockDriver::Device(_) => panic!("not a partition"),
        }
    }
}
