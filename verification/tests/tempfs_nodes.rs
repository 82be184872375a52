use kidneyos::vfs::tempfs::{TempFS, TempNode};
use kidneyos::vfs::{Error, FileSystem, INodeType};

#[test]
fn tempfs_new_has_empty_root() {
    let fs = TempFS::new();
    assert_eq!(fs.nodes.len(), 1);
    assert!(matches!(&fs.nodes[0], TempNode::Directory { entries, parent: 0 } if entries.is_empty()));
}

#[test]
fn tempfs_create_numbers_inodes_in_order_and_refuses_duplicates() {
    let mut fs = TempFS::new();
    assert_eq!(fs.create(0, b"a").unwrap(), 1);
    assert_eq!(fs.mkdir(0, b"d").unwrap(), 2);
    assert!(matches!(fs.create(0, b"a"), Err(Error::Exists)));
    assert!(matches!(fs.create(1, b"x"), Err(Error::NotDirectory)));
    assert!(matches!(fs.create(9, b"x"), Err(Error::NotFound)));
    assert_eq!(fs.nodes.len(), 3);
    let names: Vec<Vec<u8>> = fs.readdir(0).unwrap().into_iter().map(|e| e.name).collect();
    assert_eq!(names, vec![b"a".to_vec(), b"d".to_vec()]);
}

#[test]
fn tempfs_unlink_and_rmdir_check_kinds() {
    let mut fs = TempFS::new();
    let d = fs.mkdir(0, b"d").unwrap();
    fs.create(d, b"f").unwrap();
    fs.create(0, b"g").unwrap();
    assert!(matches!(fs.unlink(0, b"d"), Err(Error::IsDirectory)));
    assert!(matches!(fs.rmdir(0, b"d"), Err(Error::NotEmpty)));
    assert!(matches!(fs.rmdir(0, b"g"), Err(Error::NotDirectory)));
    assert!(matches!(fs.unlink(0, b"missing"), Err(Error::NotFound)));
    fs.unlink(d, b"f").unwrap();
    fs.rmdir(0, b"d").unwrap();
    let names: Vec<Vec<u8>> = fs.readdir(0).unwrap().into_iter().map(|e| e.name).collect();
    assert_eq!(names, vec![b"g".to_vec()]);
}

#[test]
fn tempfs_link_counts_links() {
    let mut fs = TempFS::new();
    let f = fs.create(0, b"f").unwrap();
    fs.link(f, 0, b"g").unwrap();
    assert_eq!(fs.stat(f).unwrap().nlink, 2);
    assert!(matches!(fs.link(f, 0, b"g"), Err(Error::Exists)));
    let d = fs.mkdir(0, b"d").unwrap();
    assert!(matches!(fs.link(d, 0, b"h"), Err(Error::IsDirectory)));
    assert_eq!(fs.lookup(0, b"g").unwrap(), f);
}

#[test]
fn tempfs_stat_and_readlink() {
    let mut fs = TempFS::new();
    let f = fs.create(0, b"f").unwrap();
    assert_eq!(fs.write(f, 0, b"hello").unwrap(), 5);
    let info = fs.stat(f).unwrap();
    assert_eq!(info.size, 5);
    assert_eq!(info.kind, INodeType::File);
    let l = fs.symlink(b"/f", 0, b"l").unwrap();
    assert_eq!(fs.readlink(l).unwrap(), b"/f".to_vec());
    assert_eq!(fs.stat(l).unwrap().size, 2);
    assert!(matches!(fs.readlink(f), Err(Error::NotLink)));
    assert_eq!(fs.stat(0).unwrap().kind, INodeType::Directory);
    assert!(matches!(fs.stat(42), Err(Error::NotFound)));
}

#[test]
fn tempfs_read_write_only_files() {
    let mut fs = TempFS::new();
    let l = fs.symlink(b"x", 0, b"l").unwrap();
    let mut buf = [0u8; 4];
    assert!(matches!(fs.read(0, 0, &mut buf), Err(Error::IsDirectory)));
    assert!(matches!(fs.read(l, 0, &mut buf), Err(Error::IO(_))));
    assert!(matches!(fs.write(7, 0, b"a"), Err(Error::NotFound)));
    assert!(matches!(fs.truncate(0, 3), Err(Error::IsDirectory)));
    let f = fs.create(0, b"f").unwrap();
    fs.truncate(f, 3).unwrap();
    assert_eq!(fs.read(f, 0, &mut buf).unwrap(), 3);
    assert_eq!(&buf[..3], &[0, 0, 0]);
}
