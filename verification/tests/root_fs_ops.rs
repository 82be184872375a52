use kidneyos::fs::fs_manager::{Mode, SeekFrom};
use kidneyos::fs::root_fs::RootFileSystem;
use kidneyos::fs::{read_file, write_file_absolute_path, ProcessControlBlock, ProcessFileDescriptor};
use kidneyos::vfs::tempfs::TempFS;
use kidneyos::vfs::{Error, INodeType};

fn setup() -> (RootFileSystem<TempFS>, ProcessControlBlock) {
    let mut root = RootFileSystem::new();
    root.mount_root(TempFS::new()).unwrap();
    let pcb = ProcessControlBlock { pid: 1, cwd: root.get_root().unwrap(), cwd_path: b"/".to_vec() };
    (root, pcb)
}

fn fd(pcb: &ProcessControlBlock, n: i16) -> ProcessFileDescriptor {
    ProcessFileDescriptor { pid: pcb.pid, fd: n }
}

#[test]
fn nothing_is_found_before_the_root_is_mounted() {
    let mut root: RootFileSystem<TempFS> = RootFileSystem::new();
    assert!(root.get_root().is_err());
    let pcb = ProcessControlBlock { pid: 1, cwd: (0, 0), cwd_path: b"/".to_vec() };
    assert!(matches!(root.open(&pcb, b"/x", Mode::CreateReadWrite), Err(Error::NotFound)));
}

#[test]
fn file_descriptors_are_the_lowest_free_ones() {
    let (mut root, pcb) = setup();
    let a = root.open(&pcb, b"/a", Mode::CreateReadWrite).unwrap();
    let b = root.open(&pcb, b"/b", Mode::CreateReadWrite).unwrap();
    assert_eq!(a, 0);
    assert_eq!(b, 1);
    root.close(fd(&pcb, a)).unwrap();
    let c = root.open(&pcb, b"/c", Mode::CreateReadWrite).unwrap();
    assert_eq!(c, 0);
    assert!(matches!(root.close(fd(&pcb, 7)), Err(Error::BadFd)));
}

#[test]
fn opening_a_missing_file_without_create_fails() {
    let (mut root, pcb) = setup();
    assert!(matches!(root.open(&pcb, b"/missing", Mode::ReadWrite), Err(Error::NotFound)));
}

#[test]
fn seek_and_read_back() {
    let (mut root, pcb) = setup();
    let f = fd(&pcb, root.open(&pcb, b"/data", Mode::CreateReadWrite).unwrap());
    assert_eq!(root.write(f, b"0123456789").unwrap(), 10);
    assert_eq!(root.lseek(f, SeekFrom::Start, 3).unwrap(), 3);
    let mut buf = [0u8; 4];
    assert_eq!(root.read(f, &mut buf).unwrap(), 4);
    assert_eq!(&buf, b"3456");
    assert_eq!(root.lseek(f, SeekFrom::Current, -2).unwrap(), 5);
    assert_eq!(root.lseek(f, SeekFrom::End, -1).unwrap(), 9);
    assert_eq!(root.read(f, &mut buf).unwrap(), 1);
    assert_eq!(buf[0], b'9');
    assert!(root.lseek(f, SeekFrom::Current, -100).is_err());
    // writing past the end leaves a gap of zeros
    assert_eq!(root.lseek(f, SeekFrom::Start, 12).unwrap(), 12);
    assert_eq!(root.write(f, b"!").unwrap(), 1);
    let info = root.fstat(f).unwrap();
    assert_eq!(info.size, 13);
    assert_eq!(info.kind, INodeType::File);
    root.lseek(f, SeekFrom::Start, 9).unwrap();
    let mut tail = [9u8; 8];
    assert_eq!(root.read(f, &mut tail).unwrap(), 4);
    assert_eq!(&tail[..4], b"9\0\0!");
}

#[test]
fn truncate_cuts_and_extends() {
    let (mut root, pcb) = setup();
    let f = fd(&pcb, root.open(&pcb, b"/t", Mode::CreateReadWrite).unwrap());
    root.write(f, b"abcdef").unwrap();
    root.ftruncate(f, 3).unwrap();
    assert_eq!(root.fstat(f).unwrap().size, 3);
    root.ftruncate(f, 5).unwrap();
    root.lseek(f, SeekFrom::Start, 0).unwrap();
    let mut buf = [7u8; 8];
    assert_eq!(root.read(f, &mut buf).unwrap(), 5);
    assert_eq!(&buf[..5], b"abc\0\0");
}

#[test]
fn directories_and_unlink() {
    let (mut root, pcb) = setup();
    root.mkdir(&pcb, b"/dir").unwrap();
    assert!(matches!(root.mkdir(&pcb, b"/dir"), Err(Error::Exists)));
    let f = fd(&pcb, root.open(&pcb, b"/dir/file", Mode::CreateReadWrite).unwrap());
    root.close(f).unwrap();
    root.unlink(&pcb, b"/dir/file").unwrap();
    assert!(matches!(root.open(&pcb, b"/dir/file", Mode::ReadWrite), Err(Error::NotFound)));
    root.rmdir(&pcb, b"/dir").unwrap();
    assert!(matches!(root.open(&pcb, b"/dir/x", Mode::CreateReadWrite), Err(Error::NotFound)));
    // a directory with something in it cannot be removed
    root.mkdir(&pcb, b"/full").unwrap();
    let f = fd(&pcb, root.open(&pcb, b"/full/file", Mode::CreateReadWrite).unwrap());
    root.close(f).unwrap();
    assert!(matches!(root.rmdir(&pcb, b"/full"), Err(Error::NotEmpty)));
}

#[test]
fn change_directory_and_relative_paths() {
    let (mut root, mut pcb) = setup();
    root.mkdir(&pcb, b"/home").unwrap();
    root.mkdir(&pcb, b"/home/user").unwrap();
    root.chdir(&mut pcb, b"/home/user").unwrap();
    assert_eq!(pcb.cwd_path, b"/home/user".to_vec());
    let f = fd(&pcb, root.open(&pcb, b"notes", Mode::CreateReadWrite).unwrap());
    root.write(f, b"hi").unwrap();
    root.close(f).unwrap();
    root.chdir(&mut pcb, b"..").unwrap();
    assert_eq!(pcb.cwd_path, b"/home".to_vec());
    let f = fd(&pcb, root.open(&pcb, b"user/notes", Mode::ReadWrite).unwrap());
    let mut buf = [0u8; 4];
    assert_eq!(root.read(f, &mut buf).unwrap(), 2);
    assert_eq!(&buf[..2], b"hi");
}

#[test]
fn links_and_renames() {
    let (mut root, pcb) = setup();
    let f = fd(&pcb, root.open(&pcb, b"/orig", Mode::CreateReadWrite).unwrap());
    root.write(f, b"shared").unwrap();
    root.close(f).unwrap();
    root.link(&pcb, b"/orig", b"/hard").unwrap();
    root.rename(&pcb, b"/orig", b"/moved").unwrap();
    assert!(matches!(root.open(&pcb, b"/orig", Mode::ReadWrite), Err(Error::NotFound)));
    for p in [&b"/hard"[..], b"/moved"] {
        let f = fd(&pcb, root.open(&pcb, p, Mode::ReadWrite).unwrap());
        let mut buf = [0u8; 8];
        assert_eq!(root.read(f, &mut buf).unwrap(), 6);
        assert_eq!(&buf[..6], b"shared");
        root.close(f).unwrap();
    }
}

#[test]
fn symbolic_links_are_followed() {
    let (mut root, pcb) = setup();
    root.mkdir(&pcb, b"/real").unwrap();
    let f = fd(&pcb, root.open(&pcb, b"/real/file", Mode::CreateReadWrite).unwrap());
    root.write(f, b"via link").unwrap();
    root.close(f).unwrap();
    root.symlink(&pcb, b"/real", b"/alias").unwrap();
    let f = fd(&pcb, root.open(&pcb, b"/alias/file", Mode::ReadWrite).unwrap());
    let mut buf = [0u8; 8];
    assert_eq!(root.read(f, &mut buf).unwrap(), 8);
    assert_eq!(&buf, b"via link");
}

#[test]
fn standard_output_swallows_writes() {
    let (mut root, pcb) = setup();
    root.open_standard_fds(pcb.pid);
    let out = fd(&pcb, 1);
    assert!(root.is_stdout(out));
    assert_eq!(root.write(out, b"hello").unwrap(), 5);
    let null = fd(&pcb, root.open_null(pcb.pid).unwrap());
    assert!(!root.is_stdout(null));
    assert_eq!(root.write(null, b"gone").unwrap(), 4);
}

#[test]
fn reading_and_writing_whole_files() {
    let (mut root, pcb) = setup();
    let data: Vec<u8> = (0..10_000u32).map(|i| (i % 256) as u8).collect();
    write_file_absolute_path(&mut root, pcb.pid, b"/big", &data).unwrap();
    let back = read_file(&mut root, &pcb, b"/big").unwrap();
    assert_eq!(back, data);
}

#[test]
fn closing_everything_of_a_process() {
    let (mut root, pcb) = setup();
    let a = root.open(&pcb, b"/a", Mode::CreateReadWrite).unwrap();
    root.open(&pcb, b"/b", Mode::CreateReadWrite).unwrap();
    root.close_all(pcb.pid, None);
    assert!(matches!(root.close(fd(&pcb, a)), Err(Error::BadFd)));
    let again = root.open(&pcb, b"/a", Mode::ReadWrite).unwrap();
    assert_eq!(again, 0);
}

#[test]
fn syncing_with_nothing_mounted_succeeds() {
    let mut root: RootFileSystem<TempFS> = RootFileSystem::new();
    assert!(root.sync().is_ok());
    let (mut root, _pcb) = setup();
    assert!(root.sync().is_ok());
}
