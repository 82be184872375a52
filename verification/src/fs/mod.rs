//! The kernel's file layer.
use vstd::prelude::*;

pub mod fat;
pub mod fs_manager;
pub mod inode;
pub mod path;
pub mod tables;
pub mod root_fs;
pub mod vsfs;

use crate::fs::fs_manager::Mode;
use crate::fs::path::SLASH;
use crate::fs::root_fs::{lemma_same_tree_trans, RootFileSystem};
use crate::fs::tables::OpenFile;
use crate::vfs::{Error, FileSystem, Result};

verus! {

/// A file descriptor of a process.
pub type FileDescriptor = i16;

/// A process id.
pub type Pid = u16;

/// A file descriptor together with the process it belongs to.
#[derive(Clone, Copy, Debug, Hash, PartialEq, Eq, PartialOrd, Ord, Structural)]
pub struct ProcessFileDescriptor {
    pub pid: Pid,
    pub fd: FileDescriptor,
}

/// What the file layer needs of a process: its id and its working directory.
pub struct ProcessControlBlock {
    pub pid: Pid,
    /// File system and inode of the working directory
    pub cwd: (u16, crate::vfs::INodeNum),
    /// Absolute path of the working directory
    pub cwd_path: Vec<u8>,
}

/// The size of the pieces in which `read_file` reads.
pub const READ_CHUNK: usize = 4096;

/// Read the entire contents of the file at `path`, opened for `process`
/// (which keeps it open, at its end).
pub fn read_file<F: FileSystem>(root: &mut RootFileSystem<F>, process: &ProcessControlBlock, path: &[u8]) -> (r: Result<Vec<u8>>)
    requires
        old(root).wf(),
    ensures
        final(root).wf(),
        final(root).same_tree(old(root)),
        final(root).same_data(old(root)),
        r matches Ok(v) ==> exists|n: FileDescriptor| #[trigger] final(root).entry((ProcessFileDescriptor { pid: process.pid, fd: n }))
            matches Some(OpenFile::Regular { fs, offset: _, is_dir: false }) && final(root).inode_of(
            fs,
            (ProcessFileDescriptor { pid: process.pid, fd: n }),
        ) matches Some(ino) && (final(root).data_of(fs, ino) matches Some(d) ==> v@ == d),
{
    let n = root.open(process, path, Mode::ReadWrite)?;
    let fd = ProcessFileDescriptor { fd: n, pid: process.pid };
    let ghost s0 = *root;
    let ghost (fs, ino) = match s0.entry(fd) {
        Some(OpenFile::Regular { fs, offset: _, is_dir: _ }) => (fs, s0.inode_of(fs, fd)->0),
        _ => (0u16, 0u32),
    };
    let ghost d0 = s0.data_of(fs, ino);
    let mut data: Vec<u8> = Vec::new();
    let mut chunk: Vec<u8> = Vec::new();
    while chunk.len() < READ_CHUNK
        invariant
            chunk@.len() <= READ_CHUNK,
        decreases READ_CHUNK - chunk@.len(),
    {
        chunk.push(0);
    }
    loop
        invariant
            root.wf(),
            root.same_tree(old(root)),
            root.same_data(old(root)),
            root.same_inodes(&s0),
            root.same_data(&s0),
            chunk@.len() == READ_CHUNK,
            fd == (ProcessFileDescriptor { pid: process.pid, fd: n }),
            s0.entry(fd) matches Some(OpenFile::Regular { fs: f, offset: _, is_dir }) && f == fs && s0.inode_of(fs, fd) == Some(ino),
            root.entry(fd) matches Some(OpenFile::Regular { fs: f, offset, is_dir }) && f == fs && (d0 matches Some(d) ==> offset
                == data@.len() && data@.len() <= d.len() && data@ == d.take(data@.len() as int)),
            d0 == s0.data_of(fs, ino),
        decreases usize::MAX - data@.len(),
    {
        if data.len() > usize::MAX - READ_CHUNK {
            return Err(Error::NoSpace);
        }
        let ghost before = data@;
        let ghost s1 = *root;
        let got = root.read(fd, chunk.as_mut_slice());
        proof {
            lemma_same_tree_trans(old(root), &s1, root);
        }
        let count = match got {
            Ok(c) => c,
            Err(e) => return Err(e),
        };
        if count == 0 {
            proof {
                if let Some(d) = d0 {
                    assert(data@ =~= d);
                }
                assert(root.entry(fd) matches Some(OpenFile::Regular { fs: f, offset: _, is_dir: false }) && f == fs);
                assert(root.inode_of(fs, fd) == Some(ino));
                assert(root.data_of(fs, ino) == d0);
                let pfd = ProcessFileDescriptor { pid: process.pid, fd: n };
                assert(pfd == fd);
                assert(root.entry(pfd) matches Some(OpenFile::Regular { fs: f, offset: _, is_dir: false }) && root.inode_of(f, pfd)
                    matches Some(i) && (root.data_of(f, i) matches Some(d) ==> data@ == d));
            }
            return Ok(data);
        }
        let mut i: usize = 0;
        while i < count
            invariant
                i <= count <= chunk@.len(),
                data@ == before + chunk@.take(i as int),
            decreases count - i,
        {
            data.push(chunk[i]);
            i = i + 1;
            assert(data@ =~= before + chunk@.take(i as int));
        }
        proof {
            assert(chunk@.take(count as int) == chunk@.subrange(0, count as int));
        }
    }
}

/// Write `data` to a new file at the absolute `path`, for process `pid`.
pub fn write_file_absolute_path<F: FileSystem>(root: &mut RootFileSystem<F>, pid: Pid, path: &[u8], data: &[u8]) -> (r: Result<()>)
    requires
        old(root).wf(),
    ensures
        final(root).wf(),
        final(root).same_tree(old(root)),
        old(root).root_mount is None ==> r matches Err(Error::NotFound),
        r is Ok ==> exists|fs: u16, ino: crate::vfs::INodeNum| #[trigger] final(root).data_of(fs, ino) == Some(data@),
{
    let cwd = root.get_root()?;
    let mut cwd_path: Vec<u8> = Vec::new();
    cwd_path.push(SLASH);
    let process = ProcessControlBlock { pid, cwd, cwd_path };
    let n = root.open(&process, path, Mode::CreateReadWrite)?;
    let fd = ProcessFileDescriptor { fd: n, pid };
    let ghost s0 = *root;
    let ghost (fs, ino) = match s0.entry(fd) {
        Some(OpenFile::Regular { fs, offset: _, is_dir: _ }) => (fs, s0.inode_of(fs, fd)->0),
        _ => (0u16, 0u32),
    };
    let written = root.write(fd, data);
    proof { lemma_same_tree_trans(old(root), &s0, root); }
    written?;
    let ghost s1 = *root;
    let _ = root.close(fd);
    proof {
        lemma_same_tree_trans(old(root), &s1, root);
        crate::vfs::lemma_write_to_empty(data@);
        assert(s1.data_of(fs, ino) == Some(data@));
        assert(root.data_of(fs, ino) == Some(data@));
    }
    Ok(())
}

} // verus!
