use kidneyos::filesys::structs::{File, FileSystem, VirtualFileSystem};
use kidneyos::fs::inode::{InodeData, MemInode, Stat};

/// A file system that knows one name; it records nothing.
struct Named(&'static str);

impl FileSystem for Named {
    fn open(&self, path: &[u8]) -> Option<File> {
        let mut p = self.0.as_bytes().to_vec();
        p.push(b':');
        p.extend_from_slice(path);
        Some(File { pathname: p })
    }
    fn close(&self, _file: &File) -> bool {
        true
    }
    fn read(&self, _file: &File, _buffer: &mut [u8], amount: u32) -> u32 {
        amount
    }
    fn write(&self, _file: &File, _buffer: &mut [u8], _amount: u32) -> u32 {
        0
    }
    fn create(&mut self, _path: &[u8], _name: &[u8]) -> bool {
        true
    }
    fn delete(&self, _path: &[u8]) -> bool {
        false
    }
    fn list_dir(&self, path: &[u8]) -> Option<Vec<Vec<u8>>> {
        Some(vec![self.0.as_bytes().to_vec(), path.to_vec()])
    }
    fn mkdir(&mut self, _path: &[u8], _name: &[u8]) -> bool {
        true
    }
    fn rmdir(&mut self, _path: &[u8], _name: &[u8]) -> bool {
        false
    }
}

#[test]
fn paths_go_to_the_longest_mounted_prefix() {
    let mut vfs = VirtualFileSystem::new(Named("root"));
    vfs.mount(b"/mnt".to_vec(), Named("mnt"));
    vfs.mount(b"/mnt/usb".to_vec(), Named("usb"));
    assert_eq!(vfs.resolve_path(b"/etc/passwd"), (None, b"/etc/passwd".to_vec()));
    assert_eq!(vfs.resolve_path(b"/mnt/a"), (Some(0), b"/a".to_vec()));
    assert_eq!(vfs.resolve_path(b"/mnt/usb/b"), (Some(1), b"/b".to_vec()));
    assert_eq!(vfs.open(b"/mnt/usb/b").unwrap().pathname, b"usb:/b".to_vec());
    assert_eq!(vfs.open(b"/x").unwrap().pathname, b"root:/x".to_vec());
    assert_eq!(vfs.list_dir(b"/mnt/d").unwrap()[0], b"mnt".to_vec());
}

#[test]
fn every_occurrence_of_the_mount_path_is_removed() {
    let mut vfs = VirtualFileSystem::new(Named("root"));
    vfs.mount(b"/m".to_vec(), Named("m"));
    assert_eq!(vfs.resolve_path(b"/m/x/m/y"), (Some(0), b"/x/y".to_vec()));
}

#[test]
fn mounting_twice_at_one_path_keeps_the_first() {
    let mut vfs = VirtualFileSystem::new(Named("root"));
    vfs.mount(b"/a".to_vec(), Named("first"));
    vfs.mount(b"/a".to_vec(), Named("second"));
    assert_eq!(vfs.mount_points.len(), 1);
    assert_eq!(vfs.open(b"/a/f").unwrap().pathname, b"first:/f".to_vec());
    vfs.unmount(b"/a");
    assert_eq!(vfs.mount_points.len(), 0);
    vfs.unmount(b"/a");
    assert_eq!(vfs.open(b"/a/f").unwrap().pathname, b"root:/a/f".to_vec());
}

#[test]
fn memory_inodes() {
    let mut dir = MemInode {
        ino: 5,
        name: "docs".to_string(),
        data: InodeData::Directory(vec![6, 7]),
        blkid: 2,
        stat: Stat { link_count: 1 },
        dirty: false,
    };
    assert!(dir.is_directory());
    assert_eq!(dir.get_disk_children(), Some(&vec![6, 7]));
    assert_eq!(dir.ino(), 5);
    assert_eq!(dir.blkid(), 2);
    assert_eq!(dir.stat().link_count, 1);
    dir.set_name("papers".to_string());
    assert_eq!(dir.name(), "papers");
    let file = MemInode { ino: 6, name: "a".to_string(), data: InodeData::File, blkid: 2, stat: Stat { link_count: 2 }, dirty: true };
    assert!(!file.is_directory());
    assert!(file.get_disk_children().is_none());
    assert!(matches!(file.read_data(), InodeData::File));
}
