use kidneyos::dev::tempfs::TempFs;
use kidneyos::fs::vsfs::vsfs::Bitmap;
use kidneyos::fs::vsfs::{parse_superblock, superblock_fits, VSFS, VSFS_MAGIC};
use kidneyos::vfs::{Error, FileSystem, INodeType};

const BLOCK: usize = 4096;

fn put_u32(img: &mut [u8], off: usize, v: u32) {
    img[off..off + 4].copy_from_slice(&v.to_le_bytes());
}

fn put_u64(img: &mut [u8], off: usize, v: u64) {
    img[off..off + 8].copy_from_slice(&v.to_le_bytes());
}

fn set_bit(img: &mut [u8], block: usize, i: usize) {
    img[block * BLOCK + i / 8] |= 1 << (i % 8);
}

fn put_inode(img: &mut [u8], ino: usize, mode: u32, size: u64, blocks: &[u32], indirect: u32, block_count: u32) {
    let off = 3 * BLOCK + ino * 64;
    put_u32(img, off, mode);
    put_u32(img, off + 4, 1);
    put_u32(img, off + 8, block_count);
    put_u64(img, off + 16, size);
    put_u64(img, off + 24, 1_700_000_000);
    put_u64(img, off + 32, 5);
    for (k, b) in blocks.iter().enumerate() {
        put_u32(img, off + 40 + 4 * k, *b);
    }
    put_u32(img, off + 60, indirect);
}

fn put_dirent(img: &mut [u8], block: usize, k: usize, ino: u32, name: &[u8]) {
    let off = block * BLOCK + 256 * k;
    put_u32(img, off, ino);
    img[off + 4..off + 4 + name.len()].copy_from_slice(name);
}

fn small_contents() -> Vec<u8> {
    (0..6000u32).map(|i| (i % 199) as u8).collect()
}

fn big_contents() -> Vec<u8> {
    (0..(7 * BLOCK - 100) as u32).map(|i| (i % 241) as u8).collect()
}

/// A VSFS image: a root directory (inode 0) with a small file (inode 1,
/// two direct blocks) and a big one (inode 2, five direct blocks and two
/// blocks through its indirect block).
fn build_image() -> Vec<u8> {
    let num_blocks = 15;
    let mut img = vec![0u8; num_blocks * BLOCK];
    put_u64(&mut img, 0, VSFS_MAGIC);
    put_u64(&mut img, 8, (num_blocks * BLOCK) as u64);
    put_u32(&mut img, 16, 64);
    put_u32(&mut img, 20, 61);
    put_u32(&mut img, 24, num_blocks as u32);
    put_u32(&mut img, 28, 0);
    put_u32(&mut img, 32, 4);
    for i in 0..3 {
        set_bit(&mut img, 1, i);
    }
    for b in 0..num_blocks {
        set_bit(&mut img, 2, b);
    }
    put_inode(&mut img, 0, 16895, BLOCK as u64, &[4], 0, 1);
    let small = small_contents();
    put_inode(&mut img, 1, 33152, small.len() as u64, &[5, 6], 0, 2);
    img[5 * BLOCK..5 * BLOCK + small.len()].copy_from_slice(&small);
    let big = big_contents();
    put_inode(&mut img, 2, 33152, big.len() as u64, &[7, 8, 9, 10, 11], 12, 7);
    let blocks = [7usize, 8, 9, 10, 11, 13, 14];
    for (k, b) in blocks.iter().enumerate() {
        let start = k * BLOCK;
        let end = usize::min(big.len(), start + BLOCK);
        img[b * BLOCK..b * BLOCK + (end - start)].copy_from_slice(&big[start..end]);
    }
    put_u32(&mut img, 12 * BLOCK, 13);
    put_u32(&mut img, 12 * BLOCK + 4, 0);
    put_u32(&mut img, 12 * BLOCK + 8, 14);
    // the root directory: unused records hold an inode number past 0x8000
    for k in 0..16 {
        put_u32(&mut img, 4 * BLOCK + 256 * k, 0xFFFF_FFFF);
    }
    put_dirent(&mut img, 4, 0, 0, b".");
    put_dirent(&mut img, 4, 1, 0, b"..");
    put_dirent(&mut img, 4, 2, 1, b"hello.txt");
    put_dirent(&mut img, 4, 5, 2, b"big.bin");
    img
}

fn open_vsfs(img: Vec<u8>) -> VSFS<TempFs> {
    let sb = parse_superblock(&img[..512]);
    assert!(superblock_fits(&sb));
    VSFS::new(TempFs::from_bytes(img)).unwrap()
}

#[test]
fn vsfs_reads_superblock_and_inode_table() {
    let fs = open_vsfs(build_image());
    assert_eq!(fs.superblock.magic_number, VSFS_MAGIC);
    assert_eq!(fs.superblock.num_blocks, 15);
    assert_eq!(fs.superblock.data_start, 4);
    assert_eq!(fs.superblock.free_inodes, 61);
    assert_eq!(fs.inodes.len(), 64);
    assert_eq!(fs.inodes[1].mode, 33152);
    assert_eq!(fs.inodes[1].size, 6000);
    assert_eq!(fs.inodes[2].direct_blocks, [7, 8, 9, 10, 11]);
    assert_eq!(fs.inodes[2].indirect_block, 12);
    assert_eq!(fs.inodes[2].mtime.tv_sec, 1_700_000_000);
    // inodes the bitmap marks free read as zeros
    assert_eq!(fs.inodes[3].mode, 0);
    assert!(fs.inode_bitmap.is_allocated(2));
    assert!(!fs.inode_bitmap.is_allocated(3));
}

#[test]
fn vsfs_lists_the_root_directory() {
    let mut fs = open_vsfs(build_image());
    let root = fs.root();
    assert_eq!(root, 0);
    fs.open(root).unwrap();
    let entries = fs.readdir(root).unwrap();
    let names: Vec<&[u8]> = entries.iter().map(|e| e.name.as_slice()).collect();
    assert_eq!(names, vec![&b"."[..], b"..", b"hello.txt", b"big.bin"]);
    assert_eq!(entries[2].inode, 1);
    assert_eq!(entries[2].kind, INodeType::File);
    assert_eq!(entries[3].inode, 2);
    assert_eq!(entries[0].kind, INodeType::Directory);
}

#[test]
fn vsfs_reads_files_through_direct_and_indirect_blocks() {
    let mut fs = open_vsfs(build_image());
    let small = small_contents();
    let mut buf = vec![0u8; 10_000];
    let n = fs.read(1, 0, &mut buf).unwrap();
    assert_eq!(n, small.len());
    assert_eq!(&buf[..n], &small[..]);
    let big = big_contents();
    let mut buf = vec![0u8; 40_000];
    let n = fs.read(2, 0, &mut buf).unwrap();
    assert_eq!(n, big.len());
    assert_eq!(&buf[..n], &big[..]);
    // a read that starts in the last direct block and ends in an indirect one
    let mut buf = vec![0u8; 5000];
    let n = fs.read(2, 4 * BLOCK as u64 + 100, &mut buf).unwrap();
    assert_eq!(n, 5000);
    assert_eq!(&buf[..], &big[4 * BLOCK + 100..4 * BLOCK + 5100]);
    // past the end nothing is read
    assert_eq!(fs.read(1, 6000, &mut buf).unwrap(), 0);
}

#[test]
fn vsfs_opens_only_allocated_directories() {
    let mut fs = open_vsfs(build_image());
    assert!(fs.open(0).is_ok());
    assert!(matches!(fs.open(1), Err(Error::NotDirectory)));
    assert!(matches!(fs.open(1000), Err(Error::NotFound)));
}

#[test]
fn vsfs_stat_and_read_only() {
    let mut fs = open_vsfs(build_image());
    let info = fs.stat(1).unwrap();
    assert_eq!(info.size, 6000);
    assert_eq!(info.kind, INodeType::File);
    assert!(matches!(fs.stat(3), Err(Error::NotFound)));
    assert!(matches!(fs.create(0, b"x"), Err(Error::ReadOnlyFS)));
    assert!(matches!(fs.write(1, 0, b"x"), Err(Error::ReadOnlyFS)));
    assert!(matches!(fs.readlink(1), Err(Error::NotLink)));
}

#[test]
fn vsfs_refuses_a_disk_without_its_magic_number() {
    let mut img = build_image();
    img[0] = 0;
    assert!(matches!(VSFS::new(TempFs::from_bytes(img)), Err(Error::Unsupported)));
}

#[test]
fn vsfs_refuses_a_name_that_is_not_utf8() {
    let mut img = build_image();
    put_dirent(&mut img, 4, 2, 1, &[0x66, 0xC3, 0x28]);
    let mut fs = open_vsfs(img);
    assert!(matches!(fs.readdir(0), Err(Error::IO(_))));
}

#[test]
fn bitmap_allocates_and_frees() {
    let mut b = Bitmap::new(20);
    assert_eq!(b.bits.len(), 3);
    assert!(!b.is_allocated(13));
    b.allocate(13);
    assert!(b.is_allocated(13));
    assert_eq!(b.bits[1], 0b0010_0000);
    b.allocate(14);
    b.deallocate(13);
    assert!(!b.is_allocated(13));
    assert!(b.is_allocated(14));
    assert_eq!(Bitmap::new(16).bits.len(), 2);
    assert_eq!(Bitmap::new(0).bits.len(), 0);
}
