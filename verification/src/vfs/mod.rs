//! The interface between the kernel's file table and the file systems: inode
//! numbers and types, file information, errors, and the `FileSystem` trait.
use vstd::prelude::*;

pub mod tempfs;

verus! {

/// Inode number.
pub type INodeNum = u32;

/// Type of an inode.
#[derive(Clone, Copy, Debug, PartialEq, Eq, Structural)]
pub enum INodeType {
    File,
    Directory,
    Link,
}

impl INodeType {
    /// The number that stands for the type in directory entries given to user
    /// programs.
    pub fn to_u8(self) -> (r: u8)
        ensures
            r == match self {
                INodeType::File => 1u8,
                INodeType::Directory => 2u8,
                INodeType::Link => 3u8,
            },
    {
        match self {
            INodeType::File => 1,
            INodeType::Directory => 2,
            INodeType::Link => 3,
        }
    }
}

/// Information about a file.
#[derive(Clone, Copy, Debug, PartialEq, Eq, Structural)]
pub struct FileInfo {
    pub inode: INodeNum,
    pub size: u64,
    pub kind: INodeType,
    pub nlink: u32,
}

/// File-system errors.
#[derive(Debug)]
pub enum Error {
    NotFound,
    NotDirectory,
    IsDirectory,
    Exists,
    NotEmpty,
    NotMounted,
    BadFd,
    BadOffset,
    IllegalSeek,
    TooManyOpenFiles,
    NoSpace,
    ReadOnlyFS,
    Unsupported,
    NotLink,
    HardLinkBetweenFileSystems,
    TooManyLevelsOfLinks,
    FileSystemInUse,
    /// An I/O error, with a description
    IO(String),
}

/// Result type of file-system operations.
pub type Result<T> = core::result::Result<T, Error>;

impl Error {
    /// An I/O error with the given description.
    pub fn io(msg: &str) -> (r: Error)
        ensures
            (r matches Error::IO(s) && s@ == msg@),
    {
        Error::IO(msg.to_owned())
    }

    /// The I/O error for a failed block operation: its description.
    pub fn from_block_error(e: crate::block::block_error::BlockError) -> (r: Error)
        ensures
            (r matches Error::IO(s) && s@ == crate::block::block_error::spec_block_error_description(e)),
            device_error(r),
    {
        Error::io(e.description())
    }
}

/// Whether `e` is the I/O error for a failed block operation.
pub open spec fn device_error(e: Error) -> bool {
    e matches Error::IO(m) && exists|b: crate::block::block_error::BlockError|
        m@ == crate::block::block_error::spec_block_error_description(b)
}

/// A directory entry as a file system lists it.
pub struct RawDirEntry {
    pub inode: INodeNum,
    pub kind: INodeType,
    pub name: Vec<u8>,
}

/// The inode, type and name of each entry of a listing.
pub open spec fn raw_listing(v: Seq<RawDirEntry>) -> Seq<(INodeNum, INodeType, Seq<u8>)> {
    Seq::new(v.len(), |i: int| (v[i].inode, v[i].kind, v[i].name@))
}

/// The bytes of `d` from `off`, up to `n` of them.
pub open spec fn read_range(d: Seq<u8>, off: int, n: int) -> Seq<u8> {
    if n <= 0 {
        Seq::empty()
    } else {
        d.subrange(off, off + n)
    }
}

/// How many bytes a read of up to `len` bytes from `off` gets from data of
/// length `size`.
pub open spec fn read_count(size: int, off: int, len: int) -> int {
    if off >= size {
        0
    } else if size - off < len {
        size - off
    } else {
        len
    }
}

/// Data `d` after writing `b` at offset `off`; a gap past the old end reads as
/// zeros.
pub open spec fn write_at(d: Seq<u8>, off: int, b: Seq<u8>) -> Seq<u8> {
    let len = if d.len() > off + b.len() { d.len() as int } else { off + b.len() };
    Seq::new(
        len as nat,
        |i: int|
            if off <= i < off + b.len() {
                b[i - off]
            } else if i < d.len() {
                d[i]
            } else {
                0u8
            },
    )
}

/// Data `d` cut or zero-extended to `size` bytes.
pub open spec fn truncate_to(d: Seq<u8>, size: int) -> Seq<u8> {
    Seq::new(size as nat, |i: int| if i < d.len() { d[i] } else { 0u8 })
}

/// A file system as the kernel's file table uses it. Files are named by inode
/// number; a file system is modelled by the bytes each regular file holds.
pub trait FileSystem {
    /// The file system's invariant.
    spec fn fs_inv(&self) -> bool;

    /// The bytes regular file `ino` holds, or `None` if `ino` is no regular file.
    spec fn file_data(&self, ino: INodeNum) -> Option<Seq<u8>>;

    /// The type of inode `ino`, or `None` if no such inode exists.
    spec fn inode_kind(&self, ino: INodeNum) -> Option<INodeType>;

    /// The root directory's inode.
    spec fn spec_root(&self) -> INodeNum;

    /// The entries of directory `dir` as the file system lists them, in order
    /// (inode, type, name), or `None` where `dir` cannot be listed.
    spec fn dir_entries(&self, dir: INodeNum) -> Option<Seq<(INodeNum, INodeType, Seq<u8>)>>;

    /// Get the root directory's inode.
    fn root(&self) -> (r: INodeNum)
        requires
            self.fs_inv(),
        ensures
            r == self.spec_root(),
    ;

    /// Prepare inode `inode` for use.
    fn open(&mut self, inode: INodeNum) -> (r: Result<()>)
        requires
            old(self).fs_inv(),
        ensures
            final(self).fs_inv(),
            final(self).spec_root() == old(self).spec_root(),
            forall|i: INodeNum| #[trigger] final(self).file_data(i) == old(self).file_data(i),
            forall|i: INodeNum| #[trigger] final(self).inode_kind(i) == old(self).inode_kind(i),
            forall|d: INodeNum| #[trigger] final(self).dir_entries(d) == old(self).dir_entries(d),
            r is Ok ==> old(self).inode_kind(inode) is Some,
    ;

    /// Stop using inode `inode` (the kernel calls this when no file is open on it).
    fn release(&mut self, inode: INodeNum)
        requires
            old(self).fs_inv(),
        ensures
            final(self).fs_inv(),
            final(self).spec_root() == old(self).spec_root(),
            forall|i: INodeNum| #[trigger] final(self).file_data(i) == old(self).file_data(i),
            forall|i: INodeNum| #[trigger] final(self).inode_kind(i) == old(self).inode_kind(i),
            forall|d: INodeNum| #[trigger] final(self).dir_entries(d) == old(self).dir_entries(d),
    ;

    /// Create an empty regular file `name` in directory `parent`.
    fn create(&mut self, parent: INodeNum, name: &[u8]) -> (r: Result<INodeNum>)
        requires
            old(self).fs_inv(),
        ensures
            final(self).fs_inv(),
            final(self).spec_root() == old(self).spec_root(),
            match r {
                Ok(ino) => final(self).file_data(ino) == Some(Seq::<u8>::empty()) && old(self).inode_kind(ino) is None
                    && forall|i: INodeNum| i != ino ==> #[trigger] final(self).file_data(i) == old(self).file_data(i),
                Err(_) => forall|i: INodeNum| #[trigger] final(self).file_data(i) == old(self).file_data(i),
            },
    ;

    /// Create an empty directory `name` in directory `parent`.
    fn mkdir(&mut self, parent: INodeNum, name: &[u8]) -> (r: Result<INodeNum>)
        requires
            old(self).fs_inv(),
        ensures
            final(self).fs_inv(),
            final(self).spec_root() == old(self).spec_root(),
            forall|i: INodeNum| #[trigger] final(self).file_data(i) == old(self).file_data(i),
            (r matches Ok(ino) ==> final(self).inode_kind(ino) == Some(INodeType::Directory)),
    ;

    /// Remove the entry `name` (not a directory) from directory `parent`.
    fn unlink(&mut self, parent: INodeNum, name: &[u8]) -> (r: Result<()>)
        requires
            old(self).fs_inv(),
        ensures
            final(self).fs_inv(),
            final(self).spec_root() == old(self).spec_root(),
    ;

    /// Remove the empty directory `name` from directory `parent`.
    fn rmdir(&mut self, parent: INodeNum, name: &[u8]) -> (r: Result<()>)
        requires
            old(self).fs_inv(),
        ensures
            final(self).fs_inv(),
            final(self).spec_root() == old(self).spec_root(),
            forall|i: INodeNum| #[trigger] final(self).file_data(i) == old(self).file_data(i),
    ;

    /// List the entries of directory `dir`: those of `dir_entries`.
    fn readdir(&mut self, dir: INodeNum) -> (r: Result<Vec<RawDirEntry>>)
        requires
            old(self).fs_inv(),
        ensures
            final(self).fs_inv(),
            final(self).spec_root() == old(self).spec_root(),
            forall|i: INodeNum| #[trigger] final(self).file_data(i) == old(self).file_data(i),
            forall|i: INodeNum| #[trigger] final(self).inode_kind(i) == old(self).inode_kind(i),
            forall|d: INodeNum| #[trigger] final(self).dir_entries(d) == old(self).dir_entries(d),
            r matches Ok(v) ==> old(self).dir_entries(dir) == Some(raw_listing(v@)),
    ;

    /// Read up to `buf.len()` bytes of `file` from byte `offset` on.
    fn read(&mut self, file: INodeNum, offset: u64, buf: &mut [u8]) -> (r: Result<usize>)
        requires
            old(self).fs_inv(),
        ensures
            final(self).fs_inv(),
            final(self).spec_root() == old(self).spec_root(),
            forall|i: INodeNum| #[trigger] final(self).file_data(i) == old(self).file_data(i),
            forall|i: INodeNum| #[trigger] final(self).inode_kind(i) == old(self).inode_kind(i),
            final(buf)@.len() == old(buf)@.len(),
            (r matches Ok(n) ==> n <= old(buf)@.len() && (old(self).file_data(file) matches Some(d) ==> (n == read_count(d.len() as int, offset as int, old(buf)@.len() as int) && final(buf)@.subrange(0, n as int) == read_range(d, offset as int, n as int)))),
    ;

    /// Write `buf` to `file` at byte `offset`.
    fn write(&mut self, file: INodeNum, offset: u64, buf: &[u8]) -> (r: Result<usize>)
        requires
            old(self).fs_inv(),
        ensures
            final(self).fs_inv(),
            final(self).spec_root() == old(self).spec_root(),
            forall|i: INodeNum| i != file ==> #[trigger] final(self).file_data(i) == old(self).file_data(i),
            forall|i: INodeNum| #[trigger] final(self).inode_kind(i) == old(self).inode_kind(i),
            r is Err ==> final(self).file_data(file) == old(self).file_data(file),
            (r matches Ok(n) ==> n == buf@.len() && (old(self).file_data(file) matches Some(d) ==> final(self).file_data(file)
                == Some(write_at(d, offset as int, buf@)))),
    ;

    /// Information about `file`.
    fn stat(&mut self, file: INodeNum) -> (r: Result<FileInfo>)
        requires
            old(self).fs_inv(),
        ensures
            final(self).fs_inv(),
            final(self).spec_root() == old(self).spec_root(),
            forall|i: INodeNum| #[trigger] final(self).file_data(i) == old(self).file_data(i),
            forall|i: INodeNum| #[trigger] final(self).inode_kind(i) == old(self).inode_kind(i),
            (r matches Ok(info) ==> old(self).inode_kind(file) == Some(info.kind) && (old(self).file_data(file) matches Some(d)
                ==> info.size == d.len())),
    ;

    /// Make a hard link `name` in directory `parent` to `source`.
    fn link(&mut self, source: INodeNum, parent: INodeNum, name: &[u8]) -> (r: Result<()>)
        requires
            old(self).fs_inv(),
        ensures
            final(self).fs_inv(),
            final(self).spec_root() == old(self).spec_root(),
            forall|i: INodeNum| #[trigger] final(self).file_data(i) == old(self).file_data(i),
    ;

    /// Make a symbolic link `name` in directory `parent` to path `link`.
    fn symlink(&mut self, link: &[u8], parent: INodeNum, name: &[u8]) -> (r: Result<INodeNum>)
        requires
            old(self).fs_inv(),
        ensures
            final(self).fs_inv(),
            final(self).spec_root() == old(self).spec_root(),
            forall|i: INodeNum| #[trigger] final(self).file_data(i) == old(self).file_data(i),
            (r matches Ok(ino) ==> final(self).inode_kind(ino) == Some(INodeType::Link)),
    ;

    /// The path that symbolic link `link` points to.
    fn readlink(&mut self, link: INodeNum) -> (r: Result<Vec<u8>>)
        requires
            old(self).fs_inv(),
        ensures
            final(self).fs_inv(),
            final(self).spec_root() == old(self).spec_root(),
            forall|i: INodeNum| #[trigger] final(self).file_data(i) == old(self).file_data(i),
            forall|i: INodeNum| #[trigger] final(self).inode_kind(i) == old(self).inode_kind(i),
    ;

    /// Cut or zero-extend `file` to `size` bytes.
    fn truncate(&mut self, file: INodeNum, size: u64) -> (r: Result<()>)
        requires
            old(self).fs_inv(),
        ensures
            final(self).fs_inv(),
            final(self).spec_root() == old(self).spec_root(),
            forall|i: INodeNum| i != file ==> #[trigger] final(self).file_data(i) == old(self).file_data(i),
            forall|i: INodeNum| #[trigger] final(self).inode_kind(i) == old(self).inode_kind(i),
            r is Err ==> final(self).file_data(file) == old(self).file_data(file),
            (r is Ok ==> (old(self).file_data(file) matches Some(d) ==> final(self).file_data(file) == Some(truncate_to(d, size as int)))),
    ;

    /// Write any buffered changes to the device.
    fn sync(&mut self) -> (r: Result<()>)
        requires
            old(self).fs_inv(),
        ensures
            final(self).fs_inv(),
            final(self).spec_root() == old(self).spec_root(),
            forall|i: INodeNum| #[trigger] final(self).file_data(i) == old(self).file_data(i),
            forall|i: INodeNum| #[trigger] final(self).inode_kind(i) == old(self).inode_kind(i),
    ;
}

/// What a read gives back of a write: reading `b.len()` bytes at the offset
/// where `b` was just written gets all of them, and they are `b`.
pub proof fn lemma_read_after_write(d: Seq<u8>, off: int, b: Seq<u8>)
    requires
        0 <= off,
    ensures
        read_count(write_at(d, off, b).len() as int, off, b.len() as int) == b.len(),
        read_range(write_at(d, off, b), off, b.len() as int) == b,
{
    let w = write_at(d, off, b);
    if b.len() > 0 {
        assert(read_range(w, off, b.len() as int) =~= b);
    } else {
        assert(read_range(w, off, 0) =~= b);
    }
}

/// A write leaves the bytes outside what it wrote as they were, and a gap
/// before it reads as zeros.
pub proof fn lemma_write_keeps_rest(d: Seq<u8>, off: int, b: Seq<u8>, i: int)
    requires
        0 <= off,
        0 <= i < write_at(d, off, b).len(),
        !(off <= i < off + b.len()),
    ensures
        write_at(d, off, b)[i] == if i < d.len() { d[i] } else { 0u8 },
{
}

/// Writing `b` at the start of an empty file makes the file hold `b`.
pub proof fn lemma_write_to_empty(b: Seq<u8>)
    ensures
        write_at(Seq::empty(), 0, b) == b,
{
    assert(write_at(Seq::empty(), 0, b) =~= b);
}

/// A file holds the bytes read from it from the start, in reads of up to `len`
/// bytes, until a read gets none.
pub proof fn lemma_read_exhausts(d: Seq<u8>, off: int, len: int)
    requires
        0 <= off <= d.len(),
        len > 0,
        read_count(d.len() as int, off, len) == 0,
    ensures
        off == d.len(),
{
}

} // verus!
