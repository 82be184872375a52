use kidneyos::fs::fs_manager::{Directory, FileSystemManager};
use kidneyos::vfs::tempfs::TempFS;
use kidneyos::vfs::{Error, FileSystem, INodeType};

/// The names of the records in `buf[..n]`.
fn names(buf: &[u8], n: usize) -> Vec<Vec<u8>> {
    let mut out = Vec::new();
    let mut pos = 0;
    while pos < n {
        let reclen = u16::from_le_bytes([buf[pos + 12], buf[pos + 13]]) as usize;
        let name_end = buf[pos + 15..pos + reclen].iter().position(|&b| b == 0).unwrap();
        out.push(buf[pos + 15..pos + 15 + name_end].to_vec());
        pos += reclen;
    }
    out
}

#[test]
fn getdents_neither_skips_nor_repeats_across_changes() {
    let mut dir = Directory::empty(0);
    dir.add(10, INodeType::File, b"a");
    dir.add(11, INodeType::File, b"b");
    dir.add(12, INodeType::File, b"c");
    // each record is 24 bytes: two fit
    let mut buf = [0u8; 48];
    let mut offset = 0u64;
    let n = dir.getdents(&mut offset, &mut buf).unwrap();
    assert_eq!(n, 48);
    assert_eq!(names(&buf, n), vec![b"a".to_vec(), b"b".to_vec()]);
    assert_eq!(offset, 2);
    // change the directory between reads
    dir.remove(b"a");
    dir.add(13, INodeType::Directory, b"d");
    let n = dir.getdents(&mut offset, &mut buf).unwrap();
    assert_eq!(names(&buf, n), vec![b"c".to_vec(), b"d".to_vec()]);
    assert_eq!(offset, 4);
    let n = dir.getdents(&mut offset, &mut buf).unwrap();
    assert_eq!(n, 0);
    assert_eq!(offset, 4);
}

#[test]
fn lookup_reads_uncached_directory_from_file_system() {
    let mut fs = TempFS::new();
    let x = fs.mkdir(0, b"x").unwrap();
    let sub = fs.mkdir(0, b"sub").unwrap();
    let f = fs.create(sub, b"f").unwrap();
    // the manager reads the root when it starts (looking up "x"), which
    // notes `x` and `sub` as directories whose entries are not read yet
    let mut m = FileSystemManager::new(fs, None);
    assert_eq!(m.lookup(0, b"x").unwrap(), x);
    assert_eq!(m.lookup(sub, b"f").unwrap(), f);
    assert!(matches!(m.lookup(sub, b"g"), Err(Error::NotFound)));
    assert_eq!(m.lookup(sub, b"..").unwrap(), 0);
    assert_eq!(m.lookup(sub, b".").unwrap(), sub);
    assert!(matches!(m.lookup(f, b"y"), Err(Error::NotDirectory)));
}
