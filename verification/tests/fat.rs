use kidneyos::dev::tempfs::TempFs;
use kidneyos::fs::fat::FatFS;
use kidneyos::vfs::{FileSystem, INodeNum, INodeType, RawDirEntry};

/// A file or directory of a disk image to build.
enum Node {
    File(String, Vec<u8>),
    Dir(String, Vec<Node>),
}

fn file(name: &str, data: &[u8]) -> Node {
    Node::File(name.to_string(), data.to_vec())
}

fn dir(name: &str, children: Vec<Node>) -> Node {
    Node::Dir(name.to_string(), children)
}

#[derive(Clone, Copy, PartialEq)]
enum Kind {
    Fat16,
    Fat32,
}

/// The 11-byte short name of `name` if it is an upper-case 8.3 name.
fn as_short_name(name: &str) -> Option<[u8; 11]> {
    let (base, ext) = match name.find('.') {
        Some(i) => (&name[..i], &name[i + 1..]),
        None => (name, ""),
    };
    let ok = |s: &str| s.bytes().all(|c| c.is_ascii_uppercase() || c.is_ascii_digit() || c == b'_');
    if base.is_empty() || base.len() > 8 || ext.len() > 3 || ext.contains('.') || !ok(base) || !ok(ext) {
        return None;
    }
    let mut r = [b' '; 11];
    r[..base.len()].copy_from_slice(base.as_bytes());
    r[8..8 + ext.len()].copy_from_slice(ext.as_bytes());
    Some(r)
}

fn short_checksum(name: &[u8; 11]) -> u8 {
    let mut sum: u8 = 0;
    for &c in name.iter() {
        sum = ((sum & 1) << 7).wrapping_add(sum >> 1).wrapping_add(c);
    }
    sum
}

fn lfn_records(name: &str, checksum: u8) -> Vec<[u8; 32]> {
    let units: Vec<u16> = name.encode_utf16().collect();
    let n = (units.len() + 12) / 13;
    let mut out = Vec::new();
    for i in (0..n).rev() {
        let mut rec = [0u8; 32];
        rec[0] = (i as u8 + 1) | if i == n - 1 { 0x40 } else { 0 };
        rec[11] = 0x0F;
        rec[13] = checksum;
        let chunk = &units[i * 13..usize::min(units.len(), i * 13 + 13)];
        for k in 0..13 {
            let v: u16 = if k < chunk.len() {
                chunk[k]
            } else if k == chunk.len() {
                0
            } else {
                0xFFFF
            };
            let off = if k < 5 { 1 + 2 * k } else if k < 11 { 14 + 2 * (k - 5) } else { 28 + 2 * (k - 11) };
            rec[off..off + 2].copy_from_slice(&v.to_le_bytes());
        }
        out.push(rec);
    }
    out
}

fn short_record(name: &[u8; 11], attr: u8, cluster: u32, size: u32) -> [u8; 32] {
    let mut rec = [0u8; 32];
    rec[..11].copy_from_slice(name);
    rec[11] = attr;
    rec[20..22].copy_from_slice(&((cluster >> 16) as u16).to_le_bytes());
    rec[26..28].copy_from_slice(&(cluster as u16).to_le_bytes());
    rec[28..32].copy_from_slice(&size.to_le_bytes());
    rec
}

fn records_needed(children: &[Node], with_dots: bool) -> usize {
    let mut n = if with_dots { 2 } else { 0 };
    for c in children {
        let name = match c {
            Node::File(name, _) => name,
            Node::Dir(name, _) => name,
        };
        n += 1;
        if as_short_name(name).is_none() {
            n += (name.encode_utf16().count() + 12) / 13;
        }
    }
    n
}

/// Builds a FAT image in memory, one sector per cluster.
struct Builder {
    kind: Kind,
    image: Vec<u8>,
    fat: Vec<u32>,
    next_cluster: u32,
    first_data_sector: usize,
    serial: u32,
}

impl Builder {
    fn cluster_offset(&self, cluster: u32) -> usize {
        (self.first_data_sector + (cluster as usize - 2)) * 512
    }

    fn eof(&self) -> u32 {
        match self.kind {
            Kind::Fat16 => 0xFFFF,
            Kind::Fat32 => 0x0FFF_FFFF,
        }
    }

    /// Allocates `n` consecutive clusters linked into a chain.
    fn allocate_chain(&mut self, n: usize) -> u32 {
        if n == 0 {
            return 0;
        }
        let first = self.next_cluster;
        for i in 0..n as u32 {
            let c = first + i;
            self.fat[c as usize] = if i + 1 == n as u32 { self.eof() } else { c + 1 };
        }
        self.next_cluster += n as u32;
        first
    }

    fn write_at(&mut self, off: usize, data: &[u8]) {
        self.image[off..off + data.len()].copy_from_slice(data);
    }

    fn next_short_name(&mut self) -> [u8; 11] {
        self.serial += 1;
        let s = format!("E{:07}   ", self.serial);
        let mut r = [0u8; 11];
        r.copy_from_slice(s.as_bytes());
        r
    }

    /// Lays out `children` and returns the directory's records.
    fn place(&mut self, children: &[Node], self_cluster: u32, parent_cluster: u32, is_root: bool) -> Vec<[u8; 32]> {
        let mut recs = Vec::new();
        if !is_root {
            let mut dot = [b' '; 11];
            dot[0] = b'.';
            let mut dotdot = [b' '; 11];
            dotdot[0] = b'.';
            dotdot[1] = b'.';
            recs.push(short_record(&dot, 0x10, self_cluster, 0));
            recs.push(short_record(&dotdot, 0x10, parent_cluster, 0));
        }
        for child in children {
            let (name, attr, cluster, size) = match child {
                Node::File(name, data) => {
                    let first = self.allocate_chain((data.len() + 511) / 512);
                    if first != 0 {
                        let off = self.cluster_offset(first);
                        self.write_at(off, data);
                    }
                    (name.clone(), 0x20u8, first, data.len() as u32)
                },
                Node::Dir(name, kids) => {
                    let n = (records_needed(kids, true) * 32 + 511) / 512;
                    let first = self.allocate_chain(n);
                    let parent_for_child = if is_root && self.kind == Kind::Fat16 { 0 } else { self_cluster };
                    let sub = self.place(kids, first, parent_for_child, false);
                    let off = self.cluster_offset(first);
                    let bytes: Vec<u8> = sub.iter().flat_map(|r| r.iter().copied()).collect();
                    self.write_at(off, &bytes);
                    (name.clone(), 0x10u8, first, 0)
                },
            };
            match as_short_name(&name) {
                Some(short) => recs.push(short_record(&short, attr, cluster, size)),
                None => {
                    let short = self.next_short_name();
                    recs.extend(lfn_records(&name, short_checksum(&short)));
                    recs.push(short_record(&short, attr, cluster, size));
                },
            }
        }
        recs
    }
}

/// A FAT image holding `root`'s children in its root directory.
fn build_image(kind: Kind, root: &[Node]) -> Vec<u8> {
    let (total, reserved, fat_size, root_entries): (usize, usize, usize, usize) = match kind {
        Kind::Fat16 => (8192, 1, 32, 512),
        Kind::Fat32 => (70000, 32, 548, 0),
    };
    let num_fats = 2;
    let root_sectors = root_entries * 32 / 512;
    let first_data_sector = reserved + num_fats * fat_size + root_sectors;
    let mut b = Builder {
        kind,
        image: vec![0u8; total * 512],
        fat: vec![0u32; fat_size * 512 / if kind == Kind::Fat16 { 2 } else { 4 }],
        next_cluster: 2,
        first_data_sector,
        serial: 0,
    };
    b.fat[0] = if kind == Kind::Fat16 { 0xFFF8 } else { 0x0FFF_FFF8 };
    b.fat[1] = b.eof();
    // boot sector
    let mut bs = [0u8; 512];
    bs[0] = 0xEB;
    bs[1] = 0x3C;
    bs[2] = 0x90;
    bs[3..11].copy_from_slice(b"MSWIN4.1");
    bs[11..13].copy_from_slice(&512u16.to_le_bytes());
    bs[13] = 1;
    bs[14..16].copy_from_slice(&(reserved as u16).to_le_bytes());
    bs[16] = num_fats as u8;
    bs[17..19].copy_from_slice(&(root_entries as u16).to_le_bytes());
    bs[21] = 0xF8;
    bs[32..36].copy_from_slice(&(total as u32).to_le_bytes());
    match kind {
        Kind::Fat16 => {
            bs[22..24].copy_from_slice(&(fat_size as u16).to_le_bytes());
        },
        Kind::Fat32 => {
            bs[36..40].copy_from_slice(&(fat_size as u32).to_le_bytes());
            bs[44..48].copy_from_slice(&2u32.to_le_bytes());
            bs[48..50].copy_from_slice(&1u16.to_le_bytes());
            bs[50..52].copy_from_slice(&6u16.to_le_bytes());
        },
    }
    bs[510] = 0x55;
    bs[511] = 0xAA;
    b.write_at(0, &bs);
    if kind == Kind::Fat32 {
        b.write_at(6 * 512, &bs);
    }
    let recs = match kind {
        Kind::Fat16 => {
            let recs = b.place(root, 0, 0, true);
            assert!(recs.len() <= root_entries);
            let bytes: Vec<u8> = recs.iter().flat_map(|r| r.iter().copied()).collect();
            let off = (reserved + num_fats * fat_size) * 512;
            b.write_at(off, &bytes);
            recs
        },
        Kind::Fat32 => {
            let n = usize::max(1, (records_needed(root, false) * 32 + 511) / 512);
            let first = b.allocate_chain(n);
            assert_eq!(first, 2);
            let recs = b.place(root, first, 0, true);
            let bytes: Vec<u8> = recs.iter().flat_map(|r| r.iter().copied()).collect();
            let off = b.cluster_offset(first);
            b.write_at(off, &bytes);
            recs
        },
    };
    assert!(!recs.is_empty() || root.is_empty());
    // the FATs
    let mut fat_bytes: Vec<u8> = Vec::new();
    for &e in b.fat.iter() {
        match kind {
            Kind::Fat16 => fat_bytes.extend_from_slice(&(e as u16).to_le_bytes()),
            Kind::Fat32 => fat_bytes.extend_from_slice(&e.to_le_bytes()),
        }
    }
    for k in 0..num_fats {
        let off = (reserved + k * fat_size) * 512;
        b.write_at(off, &fat_bytes);
    }
    b.image
}

fn open_image(kind: Kind, root: &[Node]) -> FatFS<TempFs> {
    let image = build_image(kind, root);
    FatFS::new(TempFs::from_bytes(image)).unwrap()
}

fn sorted_entries(fat: &mut FatFS<TempFs>, dir: INodeNum) -> Vec<RawDirEntry> {
    let mut entries = fat.readdir(dir).unwrap();
    entries.sort_by(|a, b| a.name.cmp(&b.name));
    entries
}

fn read_all(fat: &mut FatFS<TempFs>, ino: INodeNum) -> Vec<u8> {
    let mut out = Vec::new();
    let mut buf = [0u8; 700];
    loop {
        let n = fat.read(ino, out.len() as u64, &mut buf).unwrap();
        if n == 0 {
            return out;
        }
        out.extend_from_slice(&buf[..n]);
    }
}

/// Checks that directory `dir` of `fat` holds exactly `expected`, with the
/// same names, types and contents, recursively.
fn check_tree(fat: &mut FatFS<TempFs>, dir: INodeNum, expected: &[Node]) {
    let entries = sorted_entries(fat, dir);
    let mut want: Vec<&Node> = expected.iter().collect();
    let name_of = |n: &Node| match n {
        Node::File(name, _) => name.clone(),
        Node::Dir(name, _) => name.clone(),
    };
    want.sort_by(|a, b| name_of(a).as_bytes().cmp(name_of(b).as_bytes()));
    assert_eq!(entries.len(), want.len());
    for (e, w) in entries.iter().zip(want.iter()) {
        assert_eq!(e.name, name_of(w).into_bytes());
        match w {
            Node::File(_, data) => {
                assert_eq!(e.kind, INodeType::File);
                if !data.is_empty() {
                    fat.open(e.inode).unwrap();
                    assert_eq!(&read_all(fat, e.inode), data);
                    fat.release(e.inode);
                }
            },
            Node::Dir(_, kids) => {
                assert_eq!(e.kind, INodeType::Directory);
                fat.open(e.inode).unwrap();
                check_tree(fat, e.inode, kids);
                fat.release(e.inode);
            },
        }
    }
}

fn simple_tree() -> Vec<Node> {
    vec![
        file("a", b"file a\n"),
        file("b", b"file b\n"),
        file("c", b"file c\n"),
        dir("d", vec![file("f", b"inner file\n")]),
    ]
}

fn test_simple(mut fat: FatFS<TempFs>) {
    let root = fat.root();
    fat.open(root).unwrap();
    let entries = sorted_entries(&mut fat, root);
    assert_eq!(entries.len(), 4);
    let check_entry = |entry: &RawDirEntry, name: &str, kind: INodeType| {
        assert_eq!(entry.name, name.as_bytes());
        assert_eq!(entry.kind, kind);
    };
    check_entry(&entries[0], "a", INodeType::File);
    check_entry(&entries[1], "b", INodeType::File);
    check_entry(&entries[2], "c", INodeType::File);
    check_entry(&entries[3], "d", INodeType::Directory);
    let dir_d = entries[3].inode;
    fat.open(dir_d).unwrap();
    let file_a = entries[0].inode;
    fat.open(file_a).unwrap();
    let mut buf = [0; 512];
    let n = fat.read(file_a, 0, &mut buf[..]).unwrap();
    assert_eq!(&buf[..n], b"file a\n");
    fat.release(file_a);
    let dir_d_entries = sorted_entries(&mut fat, dir_d);
    assert_eq!(dir_d_entries.len(), 1);
    check_entry(&dir_d_entries[0], "f", INodeType::File);
    let file_f = dir_d_entries[0].inode;
    fat.open(file_f).unwrap();
    let n = fat.read(file_f, 0, &mut buf[..]).unwrap();
    assert_eq!(&buf[..n], b"inner file\n");
    fat.release(file_f);
    fat.release(dir_d);
    fat.release(root);
}

#[test]
fn simple_fat16() {
    test_simple(open_image(Kind::Fat16, &simple_tree()));
}

#[test]
fn simple_fat32() {
    test_simple(open_image(Kind::Fat32, &simple_tree()));
}

fn long_names_tree() -> Vec<Node> {
    vec![
        file("a file with a rather long name.txt", b"contents of the long-named file\n"),
        file("exactly13char", b"thirteen\n"),
        file("Mixed Case Name.TXT", b"mixed\n"),
        file("caf\u{e9} na\u{ef}ve r\u{e9}sum\u{e9}.md", "accents \u{e9}\n".as_bytes()),
        file("\u{65e5}\u{672c}\u{8a9e}\u{306e}\u{30d5}\u{30a1}\u{30a4}\u{30eb}.txt", b"kanji\n"),
        file("emoji \u{1f600} face", b"astral plane\n"),
        file("SHORT.TXT", b"short name only\n"),
        dir(
            "a directory with a long name",
            vec![
                file("nested file with long name", b"nested\n"),
                dir("deeper still, with spaces", vec![file("leaf.data", &[7u8; 1000])]),
            ],
        ),
    ]
}

fn read_only_test(kind: Kind, tree: Vec<Node>) {
    let mut fat = open_image(kind, &tree);
    let root = fat.root();
    fat.open(root).unwrap();
    check_tree(&mut fat, root, &tree);
    fat.release(root);
}

#[test]
fn long_names_fat16() {
    read_only_test(Kind::Fat16, long_names_tree());
}

#[test]
fn long_names_fat32() {
    read_only_test(Kind::Fat32, long_names_tree());
}

fn large_file(kind: Kind) {
    let data: Vec<u8> = (0..100_000u32).map(|i| (i % 251) as u8).collect();
    let mut fat = open_image(kind, &[file("large_file.txt", &data), file("small.txt", b"small\n")]);

    let root = fat.root();
    fat.open(root).unwrap();

    // Open the large file (it spans many clusters)
    let entries = sorted_entries(&mut fat, root);
    let file_large = entries.iter().find(|e| e.name == b"large_file.txt").unwrap();

    fat.open(file_large.inode).unwrap();

    // Buffer for reading file content
    let mut buf = vec![0; 128 * 1024];
    let n = fat.read(file_large.inode, 0, &mut buf).unwrap();

    // Ensure that the file read more than 64KB
    assert!(n > 64 * 1024, "Expected to read more than 64KB, but read {} bytes", n);
    assert_eq!(n, data.len());
    assert_eq!(&buf[..n], &data[..]);

    fat.release(file_large.inode);
    fat.release(root);
}

#[test]
fn large_file_fat16() {
    large_file(Kind::Fat16);
}

#[test]
fn large_file_fat32() {
    large_file(Kind::Fat32);
}

fn large_dir(kind: Kind) {
    let tree: Vec<Node> = (0..320).map(|i| file(&format!("F{:04}.TXT", i), format!("file {}\n", i).as_bytes())).collect();
    let mut fat = open_image(kind, &tree);

    let root = fat.root();
    fat.open(root).unwrap();

    // Read the large directory (on FAT-32 it spans many clusters)
    let entries = sorted_entries(&mut fat, root);

    // Check that we have a large number of entries
    assert!(entries.len() > 299, "Expected more than 299 entries, found {}", entries.len());
    assert_eq!(entries.len(), 320);
    assert_eq!(entries[0].name, b"F0000.TXT");
    assert_eq!(entries[319].name, b"F0319.TXT");

    fat.release(root);
}

#[test]
fn large_dir_fat16() {
    large_dir(Kind::Fat16);
}

#[test]
fn large_dir_fat32() {
    large_dir(Kind::Fat32);
}

#[test]
fn reading_at_an_offset_gives_the_rest_of_the_file() {
    let data: Vec<u8> = (0..5000u32).map(|i| (i % 13) as u8).collect();
    let mut fat = open_image(Kind::Fat16, &[file("data.bin", &data)]);
    let root = fat.root();
    let entries = sorted_entries(&mut fat, root);
    let ino = entries[0].inode;
    let mut buf = [0u8; 1000];
    let n = fat.read(ino, 4500, &mut buf).unwrap();
    assert_eq!(n, 500);
    assert_eq!(&buf[..500], &data[4500..]);
    let n = fat.read(ino, 5000, &mut buf).unwrap();
    assert_eq!(n, 0);
    let n = fat.read(ino, 1234, &mut buf[..10]).unwrap();
    assert_eq!(n, 10);
    assert_eq!(&buf[..10], &data[1234..1244]);
}

#[test]
fn a_fat_file_system_is_read_only() {
    let mut fat = open_image(Kind::Fat16, &simple_tree());
    let root = fat.root();
    assert!(matches!(fat.create(root, b"new"), Err(kidneyos::vfs::Error::ReadOnlyFS)));
    assert!(matches!(fat.mkdir(root, b"new"), Err(kidneyos::vfs::Error::ReadOnlyFS)));
    assert!(matches!(fat.unlink(root, b"a"), Err(kidneyos::vfs::Error::ReadOnlyFS)));
    assert!(matches!(fat.readlink(root), Err(kidneyos::vfs::Error::NotLink)));
}

#[test]
fn a_bad_boot_signature_is_refused() {
    let mut image = build_image(Kind::Fat16, &simple_tree());
    image[511] = 0;
    assert!(FatFS::new(TempFs::from_bytes(image)).is_err());
}
