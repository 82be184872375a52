use kidneyos::filesys::disk_device::{DiskDevice, IoError, IoErrorKind};
use kidneyos::filesys::fat::{build_inode, dir_children, fill_fat_sector, BootParams, FSEntry, Fat16, Inode};

const SECTOR: usize = 512;

/// A disk held in memory; reads stop at its end, as reads of a file do.
struct MemDisk {
    bytes: Vec<u8>,
}

impl DiskDevice for MemDisk {
    fn read_at(&self, buf: &mut [u8], sector: usize) -> Result<usize, IoError> {
        let start = sector * SECTOR;
        if start >= self.bytes.len() {
            return Ok(0);
        }
        let n = buf.len().min(self.bytes.len() - start);
        buf[..n].copy_from_slice(&self.bytes[start..start + n]);
        Ok(n)
    }
}

struct FailingDisk;

impl DiskDevice for FailingDisk {
    fn read_at(&self, _buf: &mut [u8], _sector: usize) -> Result<usize, IoError> {
        Err(IoError { kind: IoErrorKind::Other, message: "no medium".to_string() })
    }
}

fn put16(img: &mut [u8], off: usize, v: u16) {
    img[off..off + 2].copy_from_slice(&v.to_le_bytes());
}

fn put32(img: &mut [u8], off: usize, v: u32) {
    img[off..off + 4].copy_from_slice(&v.to_le_bytes());
}

fn record(name: &[u8; 11], attr: u8, cluster: u16, size: u32) -> [u8; 32] {
    let mut r = [0u8; 32];
    r[..11].copy_from_slice(name);
    r[11] = attr;
    r[26..28].copy_from_slice(&cluster.to_le_bytes());
    r[28..32].copy_from_slice(&size.to_le_bytes());
    r
}

fn hello_data() -> Vec<u8> {
    (0..700u32).map(|i| (i * 7 % 251) as u8).collect()
}

/// 512 sectors of 512 bytes, one sector per cluster: boot sector, two FATs of
/// two sectors, a one-sector root directory (sector 5), and the data area from
/// sector 6 (cluster 2).
fn image() -> Vec<u8> {
    let mut img = vec![0u8; 512 * SECTOR];
    put16(&mut img, 11, 512);
    img[13] = 1;
    put16(&mut img, 14, 1);
    img[16] = 2;
    put16(&mut img, 17, 16);
    put16(&mut img, 19, 512);
    put16(&mut img, 22, 2);
    put32(&mut img, 28, 0);
    // FAT: hello.txt is clusters 2 -> 3, the subdirectory is cluster 4
    for fat in [1usize, 3] {
        let base = fat * SECTOR;
        put16(&mut img, base, 0xfff8);
        put16(&mut img, base + 2, 0xffff);
        put16(&mut img, base + 4, 3);
        put16(&mut img, base + 6, 0xffff);
        put16(&mut img, base + 8, 0xffff);
        put16(&mut img, base + 10, 0xffff);
    }
    let root = 5 * SECTOR;
    let entries = [
        record(b"TESTVOL    ", 0x08, 0, 0),
        {
            let mut r = record(b"OLD     TXT", 0x20, 9, 9);
            r[0] = 0xE5;
            r
        },
        record(b"Ah\0e\0l\0l\0o\0", 0x0F, 0, 0),
        record(b"HELLO   TXT", 0x20, 2, 700),
        record(b"SUBDIR     ", 0x10, 4, 0),
    ];
    for (k, e) in entries.iter().enumerate() {
        img[root + 32 * k..root + 32 * (k + 1)].copy_from_slice(e);
    }
    let data = hello_data();
    img[6 * SECTOR..6 * SECTOR + 700].copy_from_slice(&data);
    let sub = 8 * SECTOR;
    img[sub..sub + 32].copy_from_slice(&record(b"A       TXT", 0x20, 5, 10));
    img
}

fn fs() -> Fat16<MemDisk> {
    Fat16::new(MemDisk { bytes: image() }).unwrap()
}

#[test]
fn fat16_reads_boot_sector_and_fat() {
    let f = fs();
    assert_eq!(f.bytes_per_sector, 512);
    assert_eq!(f.sectors_per_cluster, 1);
    assert_eq!(f.num_reserved_sectors, 1);
    assert_eq!(f.num_fats, 2);
    assert_eq!(f.num_root_dir_entries, 16);
    assert_eq!(f.total_sectors, 512);
    assert_eq!(f.num_sectors_per_fat, 2);
    // (1 + 2 * 2) / 1 + 16 * 32 / 512 / 1
    assert_eq!(f.data_cluster_start, 6);
    assert_eq!(f.fat_cache.len(), 512);
    assert_eq!(f.fat_cache[2], 3);
    assert_eq!(f.fat_cache[3], 0xffff);
    // entries of the second FAT sector start at 256; unset ones are 0 on disk
    assert_eq!(f.fat_cache[300], 0);
}

#[test]
fn fat16_rejects_zero_sectors_per_cluster() {
    let mut img = image();
    img[13] = 0;
    let r = Fat16::new(MemDisk { bytes: img });
    assert!(matches!(r, Err(e) if e.kind == IoErrorKind::InvalidData));
}

#[test]
fn fat16_rejects_fat_larger_than_volume() {
    // 128 clusters, but a FAT sector holds 256 entries
    let mut img = image();
    put16(&mut img, 19, 128);
    assert!(Fat16::new(MemDisk { bytes: img }).is_err());
}

#[test]
fn fat16_passes_disk_errors_on() {
    let r = Fat16::new(FailingDisk);
    assert!(matches!(r, Err(e) if e.kind == IoErrorKind::Other && e.message == "no medium"));
}

#[test]
fn fat16_root_lists_entries_after_volume_label() {
    let f = fs();
    let root = f.get_root().unwrap();
    assert_eq!(root.name, b"root".to_vec());
    assert_eq!(root.cluster, 0);
    assert_eq!(root.children.len(), 2);
    let hello = &root.children[0];
    assert_eq!(hello.name, b"HELLO   TXT".to_vec());
    assert_eq!(hello.cluster, 2);
    assert_eq!(hello.file_size, 700);
    assert!(!hello.is_dir);
    let sub = &root.children[1];
    assert_eq!(sub.name, b"SUBDIR     ".to_vec());
    assert_eq!(sub.cluster, 4);
    assert!(sub.is_dir);
}

#[test]
fn fat16_get_inode_of_directory_lists_it() {
    let f = fs();
    let root = f.get_root().unwrap();
    match f.get_inode(&root.children[1]).unwrap() {
        FSEntry::Dir(d) => {
            assert_eq!(d.name, b"SUBDIR     ".to_vec());
            assert_eq!(d.cluster, 4);
            assert_eq!(d.children.len(), 1);
            assert_eq!(d.children[0].name, b"A       TXT".to_vec());
            assert_eq!(d.children[0].cluster, 5);
            assert_eq!(d.children[0].file_size, 10);
        }
        FSEntry::F(_) => panic!("a directory entry opened as a file"),
    }
}

#[test]
fn fat16_get_file_starts_at_first_cluster() {
    let f = fs();
    let inode = Inode { name: b"HELLO   TXT".to_vec(), cluster: 2, file_size: 700, is_dir: false };
    let file = f.get_file(&inode).unwrap();
    assert_eq!(file.name, inode.name);
    assert_eq!(file.cluster, 2);
    assert_eq!(file.file_size, 700);
    assert_eq!(file.cache_offset, 0);
    assert_eq!(file.cache_cluster, 2);
}

#[test]
fn fat16_reads_whole_file_across_clusters() {
    let f = fs();
    let root = f.get_root().unwrap();
    let mut entry = f.get_inode(&root.children[0]).unwrap();
    let mut out = vec![0u8; 700];
    let n = f.read_file_at(&mut entry, 0, &mut out, 700).unwrap();
    assert_eq!(n, 700);
    assert_eq!(out, hello_data());
    match entry {
        FSEntry::F(file) => assert_eq!(file.cache_offset, 700),
        FSEntry::Dir(_) => panic!("a file became a directory"),
    }
}

#[test]
fn fat16_read_stops_at_end_of_file() {
    let f = fs();
    let root = f.get_root().unwrap();
    let mut entry = f.get_inode(&root.children[0]).unwrap();
    let mut out = vec![0u8; 1000];
    let n = f.read_file_at(&mut entry, 0, &mut out, 1000).unwrap();
    assert_eq!(n, 700);
    assert_eq!(&out[..700], &hello_data()[..]);
}

#[test]
fn fat16_short_read_from_start() {
    let f = fs();
    let root = f.get_root().unwrap();
    let mut entry = f.get_inode(&root.children[0]).unwrap();
    let mut out = vec![0u8; 10];
    assert_eq!(f.read_file_at(&mut entry, 0, &mut out, 10).unwrap(), 10);
    assert_eq!(&out[..], &hello_data()[..10]);
}

#[test]
fn fat16_read_of_directory_is_refused() {
    let f = fs();
    let root = f.get_root().unwrap();
    let mut entry = f.get_inode(&root.children[1]).unwrap();
    let mut out = vec![0u8; 16];
    let r = f.read_file_at(&mut entry, 0, &mut out, 16);
    assert!(matches!(r, Err(e) if e.kind == IoErrorKind::InvalidInput));
}

#[test]
fn fat16_read_past_end_is_refused() {
    let f = fs();
    let root = f.get_root().unwrap();
    let mut entry = f.get_inode(&root.children[0]).unwrap();
    let mut out = vec![0u8; 16];
    let r = f.read_file_at(&mut entry, 800, &mut out, 16);
    assert!(matches!(r, Err(e) if e.kind == IoErrorKind::InvalidInput));
    match entry {
        FSEntry::F(file) => assert_eq!(file.cache_offset, 0),
        FSEntry::Dir(_) => panic!("a file became a directory"),
    }
}

#[test]
fn fat16_build_inode_decodes_record() {
    let r = record(b"NOTES   MD ", 0x10 | 0x01, 0x1234, 0x0102_0304);
    let i = build_inode(&r);
    assert_eq!(i.name, b"NOTES   MD ".to_vec());
    assert_eq!(i.cluster, 0x1234);
    assert_eq!(i.file_size, 0x0102_0304);
    assert!(i.is_dir);
}

#[test]
fn fat16_dir_children_needs_end_entry() {
    let mut sector = vec![0u8; 64];
    sector[..32].copy_from_slice(&record(b"X       BIN", 0x20, 7, 1));
    sector[32..].copy_from_slice(&record(b"Y       BIN", 0x20, 8, 2));
    let r = dir_children(&sector);
    assert!(matches!(r, Err(e) if e.kind == IoErrorKind::InvalidData));
    sector.extend_from_slice(&[0u8; 32]);
    let v = dir_children(&sector).unwrap();
    assert_eq!(v.len(), 2);
    assert_eq!(v[1].cluster, 8);
}

#[test]
fn fat16_dir_children_refuses_bad_names() {
    let mut sector = vec![0u8; 64];
    sector[..32].copy_from_slice(&record(b"BAD\0    BIN", 0x20, 7, 1));
    let r = dir_children(&sector);
    assert!(matches!(r, Err(e) if e.kind == IoErrorKind::InvalidData));
    sector[..32].copy_from_slice(&record(b"BAD\xff    BIN", 0x20, 7, 1));
    assert!(dir_children(&sector).is_err());
}

#[test]
fn fat16_boot_params_use_32_bit_total_when_16_bit_is_zero() {
    let mut boot = vec![0u8; 512];
    put16(&mut boot, 11, 512);
    boot[13] = 4;
    put16(&mut boot, 19, 0);
    put32(&mut boot, 32, 100_000);
    put32(&mut boot, 28, 63);
    let p = BootParams::parse(&boot);
    assert_eq!(p.total_sectors, 100_000);
    assert_eq!(p.num_hidden_sectors, 63);
    assert_eq!(p.sectors_per_cluster, 4);
}

#[test]
fn fat16_data_cluster_start_overflow_is_none() {
    let p = BootParams {
        bytes_per_sector: 512,
        sectors_per_cluster: 1,
        num_reserved_sectors: 1,
        num_fats: 2,
        num_root_dir_entries: 16,
        total_sectors: 512,
        num_sectors_per_fat: 2,
        num_hidden_sectors: 0,
    };
    assert_eq!(p.data_cluster_start(), Some(6));
    let big = BootParams { num_sectors_per_fat: 40_000, ..p };
    assert_eq!(big.data_cluster_start(), None);
    let no_size = BootParams { bytes_per_sector: 0, ..p };
    assert_eq!(no_size.data_cluster_start(), None);
}

#[test]
fn fat16_fill_fat_sector_stores_entries() {
    let mut sector = vec![0u8; 512];
    put16(&mut sector, 0, 0xabcd);
    put16(&mut sector, 510, 7);
    let mut cache = vec![1u16; 300];
    assert!(fill_fat_sector(&mut cache, 10, &sector));
    assert_eq!(cache[9], 1);
    assert_eq!(cache[10], 0xabcd);
    assert_eq!(cache[265], 7);
    assert_eq!(cache[266], 1);
    assert!(!fill_fat_sector(&mut cache, 100, &sector));
    assert_eq!(cache[100], 0);
}
