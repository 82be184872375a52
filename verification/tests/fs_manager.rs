use kidneyos::fs::fs_manager::Mode;
use kidneyos::fs::path::dirname_and_filename;
use kidneyos::fs::root_fs::RootFileSystem;
use kidneyos::fs::{ProcessControlBlock, ProcessFileDescriptor};
use kidneyos::vfs::tempfs::TempFS;
use kidneyos::vfs::{Error, Result};

fn test_pcb(root: &RootFileSystem<TempFS>) -> ProcessControlBlock {
    ProcessControlBlock { pid: 0, cwd: root.get_root().unwrap(), cwd_path: b"/".to_vec() }
}

// open file for fake PID of 0 with cwd / for testing
fn open(root: &mut RootFileSystem<TempFS>, path: &str, mode: Mode) -> Result<ProcessFileDescriptor> {
    let pid = 0;
    let pcb = test_pcb(root);
    let fd = root.open(&pcb, path.as_bytes(), mode)?;
    Ok(ProcessFileDescriptor { fd, pid })
}

#[test]
fn test_one_filesystem_simple() {
    let mut root = RootFileSystem::new();
    let fs = TempFS::new();
    root.mount_root(fs).unwrap();
    let file = open(&mut root, "/foo", Mode::CreateReadWrite).unwrap();
    assert_eq!(root.write(file, b"test data").unwrap(), 9);
    root.close(file).unwrap();
    let file = open(&mut root, "/foo", Mode::ReadWrite).unwrap();
    let mut buf = [0; 10];
    assert_eq!(root.read(file, &mut buf).unwrap(), 9);
    assert_eq!(&buf, b"test data\0");
    root.close(file).unwrap();
}

#[test]
fn test_multiple_filesystems_simple() {
    let mut root = RootFileSystem::new();
    let fs = TempFS::new();
    root.mount_root(fs).unwrap();
    let pcb = test_pcb(&root);
    let fs2 = TempFS::new();
    root.mkdir(&pcb, b"/2").unwrap();
    root.mount(&pcb, b"/2", fs2).unwrap();
    let fs3 = TempFS::new();
    root.mkdir(&pcb, b"/2/3").unwrap();
    root.mount(&pcb, b"/2/3", fs3).unwrap();
    for path in ["/foo", "/2/foo", "/2/3/foo"] {
        let file = open(&mut root, path, Mode::CreateReadWrite).unwrap();
        // we shouldn't be allowed to unmount the FS file is contained in while it's open
        assert!(matches!(
            root.unmount(&pcb, &dirname_and_filename(path.as_bytes()).0),
            Err(Error::FileSystemInUse)
        ));
        assert_eq!(root.write(file, b"test data").unwrap(), 9);
        root.close(file).unwrap();
        let file = open(&mut root, path, Mode::ReadWrite).unwrap();
        let mut buf = [0; 10];
        assert_eq!(root.read(file, &mut buf).unwrap(), 9);
        assert_eq!(&buf, b"test data\0");
        root.close(file).unwrap();
    }
    assert!(matches!(root.unmount(&pcb, b"/2"), Err(Error::FileSystemInUse)));
    root.unmount(&pcb, b"/2/3").unwrap();
    root.unmount(&pcb, b"/2").unwrap();
}
