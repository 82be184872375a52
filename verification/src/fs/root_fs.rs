//! The root file system: the tree of mounted file systems, the open files of
//! every process, and the resolution of paths across mount points and
//! symbolic links.
use crate::fs::fs_manager::{
    is_special_name, same_files, FileSystemID, FileSystemManager, Mode, SeekFrom, MAX_LEVEL_OF_LINKS, MAX_MOUNT_POINTS,
    MAX_OPEN_FILES,
};
use crate::fs::path::{
    copy_range, dirname_and_filename, is_absolute, is_stay, only_slashes, spec_chdir_path, spec_dirname_and_filename,
    stay_component, up_component, chdir_path, SLASH,
};
use crate::fs::tables::{FileSystemList, OpenFile, OpenFileTable};
use crate::fs::{FileDescriptor, Pid, ProcessControlBlock, ProcessFileDescriptor};
use crate::vfs::{read_count, read_range, truncate_to, write_at, Error, FileInfo, FileSystem, INodeNum, INodeType, Result};
use vstd::prelude::*;

verus! {

/// The kernel's view of all mounted file systems and all open files.
pub struct RootFileSystem<F> {
    pub file_systems: FileSystemList<F>,
    /// The file system mounted at `/`
    pub root_mount: Option<FileSystemID>,
    pub open_files: OpenFileTable,
}

/// The offset after moving `n` bytes on from `offset` (kept at the largest
/// offset rather than wrapping).
pub open spec fn advance(offset: u64, n: usize) -> u64 {
    if offset + n <= u64::MAX {
        (offset + n) as u64
    } else {
        u64::MAX
    }
}

/// The offset a seek to `offset` past `base` lands on: their sum, when it is a
/// valid `i64` and not negative.
pub open spec fn seek_target(base: i64, offset: i64) -> Option<i64> {
    if 0 <= base + offset <= i64::MAX {
        Some((base + offset) as i64)
    } else {
        None
    }
}

/// `advance` computed.
fn advance_offset(offset: u64, n: usize) -> (r: u64)
    ensures
        r == advance(offset, n),
{
    offset.saturating_add(n as u64)
}

/// `seek_target` computed.
fn seek_to(base: i64, offset: i64) -> (r: Option<i64>)
    ensures
        r == seek_target(base, offset),
{
    match offset.checked_add(base) {
        None => None,
        Some(v) => {
            if v < 0 {
                None
            } else {
                Some(v)
            }
        },
    }
}

impl<F: FileSystem> RootFileSystem<F> {
    /// The tables are well formed and the root file system, if any, is mounted.
    pub open spec fn wf(&self) -> bool {
        &&& self.file_systems.wf()
        &&& self.open_files.wf()
        &&& self.root_mount matches Some(r) ==> (self.file_systems.slot(r) matches Some(m) && m.mount_point is None)
    }

    /// The file system with id `id`.
    pub open spec fn fs_at(&self, id: FileSystemID) -> Option<FileSystemManager<F>> {
        self.file_systems.slot(id)
    }

    /// What is open as `fd`.
    pub open spec fn entry(&self, fd: ProcessFileDescriptor) -> Option<OpenFile> {
        self.open_files.get(fd)
    }

    /// The bytes of regular file `ino` of file system `id`.
    pub open spec fn data_of(&self, id: FileSystemID, ino: INodeNum) -> Option<Seq<u8>> {
        match self.fs_at(id) {
            Some(m) => m.fs.file_data(ino),
            None => None,
        }
    }

    /// The type of inode `ino` of file system `id`.
    pub open spec fn kind_of(&self, id: FileSystemID, ino: INodeNum) -> Option<INodeType> {
        match self.fs_at(id) {
            Some(m) => m.fs.inode_kind(ino),
            None => None,
        }
    }

    /// The inode that file system `id` has open as `fd`.
    pub open spec fn inode_of(&self, id: FileSystemID, fd: ProcessFileDescriptor) -> Option<INodeNum> {
        match self.fs_at(id) {
            Some(m) => m.fd_inode(fd),
            None => None,
        }
    }

    /// The root directory of file system `id`.
    pub open spec fn root_of(&self, id: FileSystemID) -> Option<INodeNum> {
        match self.fs_at(id) {
            Some(m) => Some(m.fs.spec_root()),
            None => None,
        }
    }

    /// Where file system `id` is mounted (`Some(None)` for the root file system).
    pub open spec fn mount_of(&self, id: FileSystemID) -> Option<Option<(FileSystemID, INodeNum)>> {
        match self.fs_at(id) {
            Some(m) => Some(m.mount_point),
            None => None,
        }
    }

    /// Whether file system `id` is mounted, has no file open and nothing mounted in it.
    pub open spec fn idle_of(&self, id: FileSystemID) -> bool {
        match self.fs_at(id) {
            Some(m) => m.is_idle(),
            None => false,
        }
    }

    /// The same file systems are mounted, at the same places, with the same
    /// roots.
    pub open spec fn same_tree(&self, old: &Self) -> bool {
        &&& forall|id: FileSystemID| (#[trigger] self.fs_at(id)) is Some <==> old.fs_at(id) is Some
        &&& forall|id: FileSystemID| #[trigger] self.root_of(id) == old.root_of(id)
        &&& forall|id: FileSystemID| #[trigger] self.mount_of(id) == old.mount_of(id)
    }

    /// The same file systems are mounted, at the same places, with the same
    /// roots, and the same of them are idle.
    pub open spec fn same_mounts(&self, old: &Self) -> bool {
        &&& self.same_tree(old)
        &&& forall|id: FileSystemID| #[trigger] self.idle_of(id) == old.idle_of(id)
    }

    /// Every regular file holds the same bytes.
    pub open spec fn same_data(&self, old: &Self) -> bool {
        forall|id: FileSystemID, ino: INodeNum| #[trigger] self.data_of(id, ino) == old.data_of(id, ino)
    }

    /// Every file system has the same inodes open under the same descriptors.
    pub open spec fn same_inodes(&self, old: &Self) -> bool {
        forall|id: FileSystemID, fd: ProcessFileDescriptor| #[trigger] self.inode_of(id, fd) == old.inode_of(id, fd)
    }

    /// Every inode has the same type.
    pub open spec fn same_kinds(&self, old: &Self) -> bool {
        forall|id: FileSystemID, ino: INodeNum| #[trigger] self.kind_of(id, ino) == old.kind_of(id, ino)
    }

    /// Nothing that the file systems hold has changed.
    pub open spec fn same_fs(&self, old: &Self) -> bool {
        &&& self.wf()
        &&& self.root_mount == old.root_mount
        &&& self.same_mounts(old)
        &&& self.same_data(old)
        &&& self.same_inodes(old)
        &&& self.same_kinds(old)
    }

    /// Nothing a user of the root file system can observe has changed.
    pub open spec fn same_state(&self, old: &Self) -> bool {
        &&& self.same_fs(old)
        &&& self.open_files == old.open_files
    }

    /// `fd` is the lowest descriptor of process `pid` that is free.
    pub open spec fn lowest_free_fd(&self, pid: Pid, fd: FileDescriptor) -> bool {
        &&& 0 <= fd < MAX_OPEN_FILES
        &&& self.entry((ProcessFileDescriptor { pid, fd })) is None
        &&& forall|k: FileDescriptor| 0 <= k < fd ==> (#[trigger] self.entry((ProcessFileDescriptor { pid, fd: k }))) is Some
    }

    /// A root file system with nothing mounted and no file open.
    pub fn new() -> (r: Self)
        ensures
            r.wf(),
            r.root_mount is None,
            forall|id: FileSystemID| #[trigger] r.fs_at(id) is None,
            forall|fd: ProcessFileDescriptor| #[trigger] r.entry(fd) is None,
    {
        RootFileSystem { file_systems: FileSystemList::new(), root_mount: None, open_files: OpenFileTable::new() }
    }

    /// The root file system and its root directory.
    pub fn get_root(&self) -> (r: Result<(FileSystemID, INodeNum)>)
        requires
            self.wf(),
        ensures
            match self.root_mount {
                None => r matches Err(Error::NotFound),
                Some(id) => r == Ok::<(FileSystemID, INodeNum), Error>((id, self.root_of(id)->0)),
            },
    {
        let id = match self.root_mount {
            Some(id) => id,
            None => return Err(Error::NotFound),
        };
        match self.file_systems.get(id) {
            Some(m) => Ok((id, m.root())),
            None => Err(Error::NotFound),
        }
    }
}

/// `same_state` is reflexive.
pub proof fn lemma_same_state_refl<F: FileSystem>(a: &RootFileSystem<F>)
    requires
        a.wf(),
    ensures
        a.same_state(a),
{
}

/// `same_state` is transitive.
pub proof fn lemma_same_state_trans<F: FileSystem>(a: &RootFileSystem<F>, b: &RootFileSystem<F>, c: &RootFileSystem<F>)
    requires
        b.same_state(a),
        c.same_state(b),
    ensures
        c.same_state(a),
{
    assert forall|id: FileSystemID| (#[trigger] c.fs_at(id)) is Some <==> a.fs_at(id) is Some by {
        assert(c.fs_at(id) is Some <==> b.fs_at(id) is Some);
    }
    assert forall|id: FileSystemID| #[trigger] c.root_of(id) == a.root_of(id) by {
        assert(c.root_of(id) == b.root_of(id));
    }
    assert forall|id: FileSystemID| #[trigger] c.mount_of(id) == a.mount_of(id) by {
        assert(c.mount_of(id) == b.mount_of(id));
    }
    assert forall|id: FileSystemID| #[trigger] c.idle_of(id) == a.idle_of(id) by {
        assert(c.idle_of(id) == b.idle_of(id));
    }
    assert forall|id: FileSystemID, ino: INodeNum| #[trigger] c.data_of(id, ino) == a.data_of(id, ino) by {
        assert(c.data_of(id, ino) == b.data_of(id, ino));
    }
    assert forall|id: FileSystemID, ino: INodeNum| #[trigger] c.kind_of(id, ino) == a.kind_of(id, ino) by {
        assert(c.kind_of(id, ino) == b.kind_of(id, ino));
    }
    assert forall|id: FileSystemID, fd: ProcessFileDescriptor| #[trigger] c.inode_of(id, fd) == a.inode_of(id, fd) by {
        assert(c.inode_of(id, fd) == b.inode_of(id, fd));
    }
}

/// Tables with the same file system in every slot are in the same state.
pub proof fn lemma_same_slots<F: FileSystem>(a: &RootFileSystem<F>, b: &RootFileSystem<F>)
    requires
        a.wf(),
        b.file_systems.wf(),
        b.root_mount == a.root_mount,
        b.open_files == a.open_files,
        forall|j: FileSystemID| #[trigger] b.fs_at(j) == a.fs_at(j),
    ensures
        b.same_state(a),
{
    assert(b.root_mount matches Some(r) ==> (b.file_systems.slot(r) matches Some(m) && m.mount_point is None)) by {
        if let Some(r) = b.root_mount {
            assert(b.fs_at(r) == a.fs_at(r));
        }
    }
    assert forall|j: FileSystemID| (#[trigger] b.fs_at(j)) is Some <==> a.fs_at(j) is Some by {
        assert(b.fs_at(j) == a.fs_at(j));
    }
    assert forall|j: FileSystemID| #[trigger] b.root_of(j) == a.root_of(j) by {
        assert(b.fs_at(j) == a.fs_at(j));
    }
    assert forall|j: FileSystemID| #[trigger] b.mount_of(j) == a.mount_of(j) by {
        assert(b.fs_at(j) == a.fs_at(j));
    }
    assert forall|j: FileSystemID| #[trigger] b.idle_of(j) == a.idle_of(j) by {
        assert(b.fs_at(j) == a.fs_at(j));
    }
    assert forall|j: FileSystemID, ino: INodeNum| #[trigger] b.data_of(j, ino) == a.data_of(j, ino) by {
        assert(b.fs_at(j) == a.fs_at(j));
    }
    assert forall|j: FileSystemID, ino: INodeNum| #[trigger] b.kind_of(j, ino) == a.kind_of(j, ino) by {
        assert(b.fs_at(j) == a.fs_at(j));
    }
    assert forall|j: FileSystemID, fd: ProcessFileDescriptor| #[trigger] b.inode_of(j, fd) == a.inode_of(j, fd) by {
        assert(b.fs_at(j) == a.fs_at(j));
    }
}

/// `same_tree` is transitive.
pub proof fn lemma_same_tree_trans<F: FileSystem>(a: &RootFileSystem<F>, b: &RootFileSystem<F>, c: &RootFileSystem<F>)
    requires
        b.same_tree(a),
        c.same_tree(b),
    ensures
        c.same_tree(a),
{
    assert forall|id: FileSystemID| (#[trigger] c.fs_at(id)) is Some <==> a.fs_at(id) is Some by {
        assert(c.fs_at(id) is Some <==> b.fs_at(id) is Some);
    }
    assert forall|id: FileSystemID| #[trigger] c.root_of(id) == a.root_of(id) by {
        assert(c.root_of(id) == b.root_of(id));
    }
    assert forall|id: FileSystemID| #[trigger] c.mount_of(id) == a.mount_of(id) by {
        assert(c.mount_of(id) == b.mount_of(id));
    }
}

/// States with the same file systems have the same tree.
pub proof fn lemma_same_tree_fs<F: FileSystem>(a: &RootFileSystem<F>, b: &RootFileSystem<F>)
    requires
        b.file_systems == a.file_systems,
    ensures
        b.same_tree(a),
        b.same_data(a),
        b.same_inodes(a),
        b.same_kinds(a),
        forall|id: FileSystemID| #[trigger] b.fs_at(id) == a.fs_at(id),
{
}

/// A state that is the same as another keeps every file system it had.
pub proof fn lemma_same_state_keeps<F: FileSystem>(a: &RootFileSystem<F>, b: &RootFileSystem<F>)
    requires
        b.same_state(a),
    ensures
        b.keeps_mounted(a),
{
}

/// Replacing the file system in one slot by one with the same files, the same
/// open files and the same mount point changes nothing observable.
pub proof fn lemma_slot_frame<F: FileSystem>(
    a: &RootFileSystem<F>,
    b: &RootFileSystem<F>,
    id: FileSystemID,
    m1: FileSystemManager<F>,
    m2: FileSystemManager<F>,
)
    requires
        a.wf(),
        b.file_systems.wf(),
        b.root_mount == a.root_mount,
        b.open_files == a.open_files,
        a.fs_at(id) == Some(m1),
        b.fs_at(id) == Some(m2),
        forall|j: FileSystemID| j != id ==> #[trigger] b.fs_at(j) == a.fs_at(j),
        same_files(&m2.fs, &m1.fs),
        m2.open_files == m1.open_files,
        m2.mount_point == m1.mount_point,
        m2.is_idle() == m1.is_idle(),
    ensures
        b.same_state(a),
{
    assert forall|j: FileSystemID| #[trigger] b.idle_of(j) == a.idle_of(j) by {
        if j != id {
            assert(b.fs_at(j) == a.fs_at(j));
        }
    }
    assert(b.root_mount matches Some(r) ==> (b.file_systems.slot(r) matches Some(m) && m.mount_point is None)) by {
        if let Some(r) = b.root_mount {
            if r != id {
                assert(b.fs_at(r) == a.fs_at(r));
            }
        }
    }
    assert forall|j: FileSystemID| (#[trigger] b.fs_at(j)) is Some <==> a.fs_at(j) is Some by {
        if j != id {
            assert(b.fs_at(j) == a.fs_at(j));
        }
    }
    assert forall|j: FileSystemID| #[trigger] b.root_of(j) == a.root_of(j) by {
        if j != id {
            assert(b.fs_at(j) == a.fs_at(j));
        }
    }
    assert forall|j: FileSystemID| #[trigger] b.mount_of(j) == a.mount_of(j) by {
        if j != id {
            assert(b.fs_at(j) == a.fs_at(j));
        }
    }
    assert forall|j: FileSystemID, ino: INodeNum| #[trigger] b.data_of(j, ino) == a.data_of(j, ino) by {
        if j != id {
            assert(b.fs_at(j) == a.fs_at(j));
        } else {
            assert(m2.fs.file_data(ino) == m1.fs.file_data(ino));
        }
    }
    assert forall|j: FileSystemID, ino: INodeNum| #[trigger] b.kind_of(j, ino) == a.kind_of(j, ino) by {
        if j != id {
            assert(b.fs_at(j) == a.fs_at(j));
        } else {
            assert(m2.fs.inode_kind(ino) == m1.fs.inode_kind(ino));
        }
    }
    assert forall|j: FileSystemID, fd: ProcessFileDescriptor| #[trigger] b.inode_of(j, fd) == a.inode_of(j, fd) by {
        if j != id {
            assert(b.fs_at(j) == a.fs_at(j));
        }
    }
}

impl<F: FileSystem> RootFileSystem<F> {
    /// Walk from directory `state.2` of file system `state.0` (whose root is
    /// `state.1`) into the component `path[from..to]`: `..` at the root of a
    /// mounted file system leaves it for the directory it is mounted on; a
    /// directory with a file system mounted on it enters that file system's
    /// root; a symbolic link is followed.
    fn step(
        &mut self,
        state: (FileSystemID, INodeNum, INodeNum),
        path: &[u8],
        from: usize,
        to: usize,
        level_of_links: usize,
    ) -> (r: Result<(FileSystemID, INodeNum, INodeNum)>)
        requires
            old(self).wf(),
            level_of_links <= MAX_LEVEL_OF_LINKS,
            from <= to <= path@.len(),
            old(self).root_mount is Some,
            old(self).fs_at(state.0) is Some,
        ensures
            final(self).same_state(old(self)),
            (r matches Ok(s) ==> final(self).fs_at(s.0) is Some),
            is_stay(path@.subrange(from as int, to as int)) ==> r == Ok::<(FileSystemID, INodeNum, INodeNum), Error>(state),
        decreases MAX_LEVEL_OF_LINKS + 1 - level_of_links, 0usize,
    {
        let (mut fs_id, mut fs_root, mut inode) = state;
        let comp = copy_range(path, from, to);
        if stay_component(comp.as_slice()) {
            return Ok(state);
        }
        if up_component(comp.as_slice()) && inode == fs_root {
            // `..` from the root of a file system: escape to the parent file
            // system, or stay put at `/`
            let mount_point = match self.file_systems.get(fs_id) {
                Some(m) => m.get_mount_point(),
                None => return Err(Error::NotFound),
            };
            if let Some((parent_fs, ino)) = mount_point {
                fs_root = match self.file_systems.get(parent_fs) {
                    Some(m) => m.root(),
                    None => return Err(Error::NotFound),
                };
                fs_id = parent_fs;
                inode = ino;
            }
        }
        let ghost s0 = *self;
        let mut m = match self.file_systems.take(fs_id) {
            Some(m) => m,
            None => return Err(Error::NotFound),
        };
        let ghost m0 = m;
        let looked = m.lookup(inode, comp.as_slice());
        let child = match looked {
            Ok(c) => c,
            Err(e) => {
                self.file_systems.put(fs_id, m);
                proof { lemma_slot_frame(&s0, self, fs_id, m0, m); }
                return Err(e);
            },
        };
        if let Some(child_fs) = m.mount_point_at(child) {
            // enter the mounted file system
            self.file_systems.put(fs_id, m);
            proof { lemma_slot_frame(&s0, self, fs_id, m0, m); }
            let child_root = match self.file_systems.get(child_fs) {
                Some(cm) => cm.root(),
                None => return Err(Error::NotFound),
            };
            return Ok((child_fs, child_root, child_root));
        }
        let link = m.read_link(child);
        self.file_systems.put(fs_id, m);
        proof { lemma_slot_frame(&s0, self, fs_id, m0, m); }
        match link {
            Err(Error::NotLink) => Ok((fs_id, fs_root, child)),
            Ok(dest) => {
                let ghost s1 = *self;
                let resolved = self.resolve_path_relative_to((fs_id, inode), dest.as_slice(), level_of_links + 1);
                proof { lemma_same_state_trans(old(self), &s1, self); }
                let (f, i) = resolved?;
                Ok((f, fs_root, i))
            },
            Err(e) => Err(e),
        }
    }

    /// Resolve `path` relative to directory `cwd` into a file system and an
    /// inode in it, following at most `MAX_LEVEL_OF_LINKS` nested symbolic
    /// links.
    pub fn resolve_path_relative_to(
        &mut self,
        cwd: (FileSystemID, INodeNum),
        path: &[u8],
        level_of_links: usize,
    ) -> (r: Result<(FileSystemID, INodeNum)>)
        requires
            old(self).wf(),
        ensures
            final(self).same_state(old(self)),
            level_of_links > MAX_LEVEL_OF_LINKS ==> r matches Err(Error::TooManyLevelsOfLinks),
            level_of_links <= MAX_LEVEL_OF_LINKS && old(self).root_mount is None ==> r matches Err(Error::NotFound),
            (r matches Ok((f, _)) ==> final(self).fs_at(f) is Some),
            old(self).root_mount matches Some(rt) ==> (level_of_links <= MAX_LEVEL_OF_LINKS && only_slashes(path@) ==> r == (
            if is_absolute(path@) {
                Ok::<(FileSystemID, INodeNum), Error>((rt, old(self).root_of(rt)->0))
            } else if old(self).fs_at(cwd.0) is Some {
                Ok::<(FileSystemID, INodeNum), Error>(cwd)
            } else {
                Err::<(FileSystemID, INodeNum), Error>(Error::NotFound)
            })),
        decreases MAX_LEVEL_OF_LINKS + 1 - level_of_links, 1usize,
    {
        if level_of_links > MAX_LEVEL_OF_LINKS {
            return Err(Error::TooManyLevelsOfLinks);
        }
        let root_id = match self.root_mount {
            Some(id) => id,
            None => return Err(Error::NotFound),
        };
        let mut state: (FileSystemID, INodeNum, INodeNum);
        if path.len() > 0 && path[0] == SLASH {
            let root_ino = match self.file_systems.get(root_id) {
                Some(m) => m.root(),
                None => return Err(Error::NotFound),
            };
            state = (root_id, root_ino, root_ino);
        } else {
            let cwd_root = match self.file_systems.get(cwd.0) {
                Some(m) => m.root(),
                None => return Err(Error::NotFound),
            };
            state = (cwd.0, cwd_root, cwd.1);
        }
        let ghost start_state = state;
        let ghost s0 = *self;
        let mut start: usize = 0;
        let mut i: usize = 0;
        while i < path.len()
            invariant
                s0.wf(),
                s0 == *old(self),
                self.same_state(&s0),
                s0.root_mount is Some,
                level_of_links <= MAX_LEVEL_OF_LINKS,
                self.fs_at(state.0) is Some,
                start <= i <= path@.len(),
                only_slashes(path@) ==> state == start_state && start == i,
            decreases path@.len() - i,
        {
            if path[i] == SLASH {
                let ghost s1 = *self;
                let stepped = self.step(state, path, start, i, level_of_links);
                proof {
                    lemma_same_state_trans(&s0, &s1, self);
                    if only_slashes(path@) {
                        assert(path@.subrange(start as int, i as int) =~= Seq::<u8>::empty());
                    }
                }
                state = stepped?;
                start = i + 1;
            }
            i = i + 1;
        }
        let ghost s1 = *self;
        let stepped = self.step(state, path, start, path.len(), level_of_links);
        proof {
            lemma_same_state_trans(&s0, &s1, self);
            if only_slashes(path@) {
                assert(path@.subrange(start as int, path@.len() as int) =~= Seq::<u8>::empty());
            }
        }
        let state = stepped?;
        Ok((state.0, state.2))
    }

    /// Resolve `path` for `process`: relative paths start at its working
    /// directory.
    pub fn resolve_path(&mut self, process: &ProcessControlBlock, path: &[u8]) -> (r: Result<(FileSystemID, INodeNum)>)
        requires
            old(self).wf(),
        ensures
            final(self).same_state(old(self)),
            old(self).root_mount is None ==> r matches Err(Error::NotFound),
            (r matches Ok((f, _)) ==> final(self).fs_at(f) is Some),
            old(self).root_mount matches Some(rt) ==> (only_slashes(path@) ==> r == (if is_absolute(path@) {
                Ok::<(FileSystemID, INodeNum), Error>((rt, old(self).root_of(rt)->0))
            } else if old(self).fs_at(process.cwd.0) is Some {
                Ok::<(FileSystemID, INodeNum), Error>(process.cwd)
            } else {
                Err::<(FileSystemID, INodeNum), Error>(Error::NotFound)
            })),
    {
        self.resolve_path_relative_to(process.cwd, path, 0)
    }
}

impl<F: FileSystem> RootFileSystem<F> {
    /// Every file system that was mounted before still is, with the same
    /// root, the same files and the same open files.
    pub open spec fn keeps_mounted(&self, old: &Self) -> bool {
        &&& forall|id: FileSystemID| old.fs_at(id) is Some ==> (#[trigger] self.fs_at(id)) is Some
        &&& forall|id: FileSystemID| old.fs_at(id) is Some ==> #[trigger] self.root_of(id) == old.root_of(id)
        &&& forall|id: FileSystemID, ino: INodeNum| old.fs_at(id) is Some ==> #[trigger] self.data_of(id, ino) == old.data_of(id, ino)
        &&& forall|id: FileSystemID, fd: ProcessFileDescriptor| old.fs_at(id) is Some ==> #[trigger] self.inode_of(id, fd) == old.inode_of(id, fd)
    }

    /// Mount `fs` as the root file system; `NotEmpty` if one is mounted already.
    pub fn mount_root(&mut self, fs: F) -> (r: Result<()>)
        requires
            old(self).wf(),
            fs.fs_inv(),
        ensures
            final(self).wf(),
            final(self).open_files == old(self).open_files,
            old(self).root_mount is Some ==> (r matches Err(Error::NotEmpty) && *final(self) == *old(self)),
            old(self).root_mount is None ==> match r {
                Ok(()) => final(self).root_mount matches Some(id) && old(self).fs_at(id) is None && (final(self).fs_at(id) matches Some(
                    m,
                ) && same_files(&m.fs, &fs) && m.open_files@.len() == 0) && forall|j: FileSystemID| j != id ==> #[trigger] final(self).fs_at(j)
                    == old(self).fs_at(j),
                Err(e) => e is NoSpace && final(self).root_mount is None && forall|j: FileSystemID| #[trigger] final(self).fs_at(j) == old(self).fs_at(j),
            },
            old(self).root_mount is None && (exists|j: FileSystemID| j < MAX_MOUNT_POINTS && #[trigger] old(self).fs_at(j) is None)
                ==> r is Ok,
    {
        if self.root_mount.is_some() {
            return Err(Error::NotEmpty);
        }
        let id = self.file_systems.add(fs, None)?;
        self.root_mount = Some(id);
        Ok(())
    }

    /// Mount `fs` on the directory at `path`, which must be empty.
    pub fn mount(&mut self, process: &ProcessControlBlock, path: &[u8], fs: F) -> (r: Result<()>)
        requires
            old(self).wf(),
            fs.fs_inv(),
        ensures
            final(self).wf(),
            final(self).open_files == old(self).open_files,
            final(self).root_mount == old(self).root_mount,
            final(self).keeps_mounted(old(self)),
            old(self).root_mount is None ==> r matches Err(Error::NotFound),
            r is Ok ==> exists|id: FileSystemID| {
                &&& old(self).fs_at(id) is None
                &&& #[trigger] final(self).fs_at(id) matches Some(m)
                &&& same_files(&m.fs, &fs)
                &&& m.mount_point matches Some((p, d))
                &&& final(self).fs_at(p) matches Some(pm)
                &&& pm.mount_point_of(d) == Some(id)
            },
            r is Err ==> forall|id: FileSystemID| (#[trigger] final(self).fs_at(id)) is Some <==> old(self).fs_at(id) is Some,
    {
        let (parent_fs, inode) = self.resolve_path(process, path)?;
        let ghost s0 = *self;
        proof { lemma_same_state_keeps(old(self), &s0); }
        let new_fs = match self.file_systems.add(fs, Some((parent_fs, inode))) {
            Ok(id) => id,
            Err(e) => {
                proof {
                    lemma_same_slots(&s0, self);
                    lemma_same_state_trans(old(self), &s0, self);
                    lemma_same_state_keeps(old(self), self);
                }
                return Err(e);
            },
        };
        let mut pm = match self.file_systems.take(parent_fs) {
            Some(m) => m,
            None => return Err(Error::NotFound),
        };
        let ghost pm0 = pm;
        let result = pm.mount(inode, new_fs);
        self.file_systems.put(parent_fs, pm);
        if result.is_err() {
            self.file_systems.remove(new_fs);
        }
        proof {
            assert(new_fs != parent_fs);
            assert(pm0.fs.spec_root() == pm.fs.spec_root());
            assert forall|id: FileSystemID| old(self).fs_at(id) is Some implies (#[trigger] self.fs_at(id)) is Some by {
                assert(s0.fs_at(id) is Some);
            }
            assert forall|id: FileSystemID| old(self).fs_at(id) is Some implies #[trigger] self.root_of(id) == old(self).root_of(id) by {
                assert(s0.root_of(id) == old(self).root_of(id));
                assert(s0.fs_at(id) is Some);
            }
            assert forall|id: FileSystemID, ino: INodeNum| old(self).fs_at(id) is Some implies #[trigger] self.data_of(id, ino)
                == old(self).data_of(id, ino) by {
                assert(s0.data_of(id, ino) == old(self).data_of(id, ino));
                assert(s0.fs_at(id) is Some);
                if id == parent_fs {
                    assert(pm.fs.file_data(ino) == pm0.fs.file_data(ino));
                }
            }
            assert forall|id: FileSystemID, fd: ProcessFileDescriptor| old(self).fs_at(id) is Some implies #[trigger] self.inode_of(
                id,
                fd,
            ) == old(self).inode_of(id, fd) by {
                assert(s0.inode_of(id, fd) == old(self).inode_of(id, fd));
                assert(s0.fs_at(id) is Some);
            }
            if let Some(r) = self.root_mount {
                assert(s0.fs_at(r) is Some);
                assert(s0.mount_of(r) == old(self).mount_of(r));
            }
            if result.is_ok() {
                assert(s0.fs_at(new_fs) is Some <==> old(self).fs_at(new_fs) is Some);
                assert(self.fs_at(parent_fs) == Some(pm));
                assert(self.fs_at(new_fs) is Some);
                assert(pm.mount_point_of(inode) == Some(new_fs));
            } else {
                assert forall|id: FileSystemID| (#[trigger] self.fs_at(id)) is Some <==> old(self).fs_at(id) is Some by {
                    assert(s0.fs_at(id) is Some <==> old(self).fs_at(id) is Some);
                }
            }
        }
        result
    }

    /// Unmount the file system that holds the directory at `path`. Fails with
    /// `FileSystemInUse` for the root file system, or when a file is open on
    /// the file system or another file system is mounted in it.
    pub fn unmount(&mut self, process: &ProcessControlBlock, path: &[u8]) -> (r: Result<()>)
        requires
            old(self).wf(),
        ensures
            final(self).wf(),
            final(self).open_files == old(self).open_files,
            final(self).root_mount == old(self).root_mount,
            old(self).root_mount is None ==> r matches Err(Error::NotFound),
            (old(self).root_mount is Some && only_slashes(path@) && is_absolute(path@)) ==> r matches Err(Error::FileSystemInUse),
            forall|id: FileSystemID, ino: INodeNum| (#[trigger] final(self).data_of(id, ino)) is Some ==> final(self).data_of(id, ino)
                == old(self).data_of(id, ino),
            r is Ok ==> exists|c: FileSystemID| {
                &&& #[trigger] old(self).idle_of(c)
                &&& final(self).fs_at(c) is None
                &&& forall|j: FileSystemID| j != c ==> ((#[trigger] final(self).fs_at(j)) is Some <==> old(self).fs_at(j) is Some)
            },
            r is Err ==> forall|id: FileSystemID| (#[trigger] final(self).fs_at(id)) is Some <==> old(self).fs_at(id) is Some,
    {
        let (resolved_fs, _) = self.resolve_path(process, path)?;
        let ghost s0 = *self;
        let mount_point = match self.file_systems.get(resolved_fs) {
            Some(m) => m.get_mount_point(),
            None => return Err(Error::NotFound),
        };
        let (parent_fs_id, inode) = match mount_point {
            // ordinary processes shouldn't unmount /
            None => return Err(Error::FileSystemInUse),
            Some(p) => p,
        };
        let child = match self.file_systems.get(parent_fs_id) {
            Some(pm) => pm.mount_point_at(inode),
            None => return Err(Error::NotFound),
        };
        let child_fs_id = match child {
            Some(c) => c,
            None => return Err(Error::NotFound),
        };
        let mut cm = match self.file_systems.take(child_fs_id) {
            Some(m) => m,
            None => {
                proof {
                    lemma_same_slots(&s0, self);
                    lemma_same_state_trans(old(self), &s0, self);
                }
                return Err(Error::NotFound);
            },
        };
        let ghost cm0 = cm;
        if !cm.can_be_safely_unmounted() {
            self.file_systems.put(child_fs_id, cm);
            proof { lemma_slot_frame(&s0, self, child_fs_id, cm0, cm); }
            return Err(Error::FileSystemInUse);
        }
        let synced = cm.sync();
        if let Err(e) = synced {
            self.file_systems.put(child_fs_id, cm);
            proof { lemma_slot_frame(&s0, self, child_fs_id, cm0, cm); }
            return Err(e);
        }
        if let Some(root) = self.root_mount {
            if root == child_fs_id {
                // the root file system has no mount point, so it is never
                // mounted on a directory
                self.file_systems.put(child_fs_id, cm);
                proof { lemma_slot_frame(&s0, self, child_fs_id, cm0, cm); }
                return Err(Error::FileSystemInUse);
            }
        }
        let ghost s1 = *self;
        if let Some(mut pm) = self.file_systems.take(parent_fs_id) {
            let _ = pm.unmount(inode);
            self.file_systems.put(parent_fs_id, pm);
        }
        proof {
            assert(s0.idle_of(child_fs_id));
            assert forall|j: FileSystemID| j != child_fs_id implies ((#[trigger] self.fs_at(j)) is Some <==> old(self).fs_at(j) is Some) by {
                assert(s0.fs_at(j) is Some <==> old(self).fs_at(j) is Some);
                assert(s1.fs_at(j) == s0.fs_at(j));
            }
            assert forall|id: FileSystemID, ino: INodeNum| (#[trigger] self.data_of(id, ino)) is Some implies self.data_of(id, ino)
                == old(self).data_of(id, ino) by {
                assert(s0.data_of(id, ino) == old(self).data_of(id, ino));
                assert(s1.fs_at(id) == s0.fs_at(id));
            }
            if let Some(r) = self.root_mount {
                assert(s0.fs_at(r) is Some);
                assert(r != child_fs_id);
            }
        }
        Ok(())
    }
}

/// A file system state that differs from another only in which table slots
/// hold which managers still keeps the tree of file systems, when each slot
/// that changed holds a manager with the same root and mount point.
pub proof fn lemma_one_slot<F: FileSystem>(
    a: &RootFileSystem<F>,
    b: &RootFileSystem<F>,
    id: FileSystemID,
    m1: FileSystemManager<F>,
    m2: FileSystemManager<F>,
)
    requires
        a.wf(),
        b.file_systems.wf(),
        b.open_files.wf(),
        b.root_mount == a.root_mount,
        a.fs_at(id) == Some(m1),
        b.fs_at(id) == Some(m2),
        forall|j: FileSystemID| j != id ==> #[trigger] b.fs_at(j) == a.fs_at(j),
        m2.fs.spec_root() == m1.fs.spec_root(),
        m2.mount_point == m1.mount_point,
    ensures
        b.wf(),
        b.same_tree(a),
        forall|j: FileSystemID, ino: INodeNum| j != id ==> #[trigger] b.data_of(j, ino) == a.data_of(j, ino),
        forall|j: FileSystemID, ino: INodeNum| j != id ==> #[trigger] b.kind_of(j, ino) == a.kind_of(j, ino),
        forall|j: FileSystemID, fd: ProcessFileDescriptor| j != id ==> #[trigger] b.inode_of(j, fd) == a.inode_of(j, fd),
        forall|j: FileSystemID| j != id ==> #[trigger] b.idle_of(j) == a.idle_of(j),
{
    assert(b.root_mount matches Some(r) ==> (b.file_systems.slot(r) matches Some(m) && m.mount_point is None)) by {
        if let Some(r) = b.root_mount {
            if r != id {
                assert(b.fs_at(r) == a.fs_at(r));
            }
        }
    }
    assert forall|j: FileSystemID| (#[trigger] b.fs_at(j)) is Some <==> a.fs_at(j) is Some by {
        if j != id {
            assert(b.fs_at(j) == a.fs_at(j));
        }
    }
    assert forall|j: FileSystemID| #[trigger] b.root_of(j) == a.root_of(j) by {
        if j != id {
            assert(b.fs_at(j) == a.fs_at(j));
        }
    }
    assert forall|j: FileSystemID| #[trigger] b.mount_of(j) == a.mount_of(j) by {
        if j != id {
            assert(b.fs_at(j) == a.fs_at(j));
        }
    }
}

impl<F: FileSystem> RootFileSystem<F> {
    /// Open the file at `path` for `process`, under the lowest free
    /// descriptor of the process; with `CreateReadWrite`, create it (empty) in
    /// the directory that `path` names before its last `/`.
    pub fn open(&mut self, process: &ProcessControlBlock, path: &[u8], mode: Mode) -> (r: Result<FileDescriptor>)
        requires
            old(self).wf(),
        ensures
            final(self).wf(),
            final(self).root_mount == old(self).root_mount,
            final(self).same_tree(old(self)),
            old(self).root_mount is None ==> r matches Err(Error::NotFound),
            (mode == Mode::CreateReadWrite && is_special_name(spec_dirname_and_filename(path@).1)) ==> r is Err,
            match r {
                Ok(n) => {
                    &&& old(self).lowest_free_fd(process.pid, n)
                    &&& forall|g: ProcessFileDescriptor| g != (ProcessFileDescriptor { pid: process.pid, fd: n }) ==> #[trigger] final(self).entry(g)
                        == old(self).entry(g)
                    &&& final(self).entry((ProcessFileDescriptor { pid: process.pid, fd: n })) matches Some(OpenFile::Regular { fs, offset, is_dir })
                    &&& offset == 0
                    &&& final(self).inode_of(fs, (ProcessFileDescriptor { pid: process.pid, fd: n })) matches Some(ino)
                    &&& (mode == Mode::CreateReadWrite ==> {
                        &&& !is_dir
                        &&& final(self).data_of(fs, ino) == Some(Seq::<u8>::empty())
                        &&& forall|j: FileSystemID, i: INodeNum| (j, i) != (fs, ino) ==> #[trigger] final(self).data_of(j, i) == old(self).data_of(j, i)
                    })
                    &&& (mode == Mode::ReadWrite ==> {
                        &&& (is_dir <==> final(self).kind_of(fs, ino) == Some(INodeType::Directory))
                        &&& final(self).same_data(old(self))
                    })
                    &&& forall|j: FileSystemID, g: ProcessFileDescriptor| g != (ProcessFileDescriptor { pid: process.pid, fd: n }) ==> #[trigger] final(self).inode_of(j, g) == old(self).inode_of(j, g)
                },
                Err(_) => {
                    &&& forall|g: ProcessFileDescriptor| #[trigger] final(self).entry(g) == old(self).entry(g)
                    &&& final(self).same_data(old(self))
                },
            },
    {
        let (dir, name) = dirname_and_filename(path);
        let target = match mode {
            Mode::ReadWrite => self.resolve_path(process, path),
            Mode::CreateReadWrite => self.resolve_path(process, dir.as_slice()),
        };
        let ghost s0 = *self;
        let (fs_id, inode) = target?;
        let fd = match self.open_files.new_fd(process.pid, OpenFile::Regular { fs: fs_id, offset: 0, is_dir: false }) {
            Ok(fd) => fd,
            Err(e) => {
                proof {
                    lemma_same_slots(&s0, self);
                    lemma_same_state_trans(old(self), &s0, self);
                }
                return Err(e);
            },
        };
        let ghost s1 = *self;
        proof {
            lemma_same_tree_fs(&s0, &s1);
            lemma_same_tree_trans(old(self), &s0, &s1);
        }
        let mut m = match self.file_systems.take(fs_id) {
            Some(m) => m,
            None => return Err(Error::NotFound),
        };
        let ghost m0 = m;
        let ghost mut m_mid = m;
        let result = match mode {
            Mode::ReadWrite => match m.open(inode, fd) {
                Err(e) => Err(e),
                Ok(()) => match {
                    proof { m_mid = m; }
                    m.fstat(fd)
                } {
                    Err(e) => Err(e),
                    Ok(info) => {
                        if info.kind == INodeType::Directory {
                            self.open_files.set(fd, OpenFile::Regular { fs: fs_id, offset: 0, is_dir: true });
                        }
                        Ok(())
                    },
                },
            },
            Mode::CreateReadWrite => m.create(inode, name.as_slice(), fd),
        };
        self.file_systems.put(fs_id, m);
        proof {
            lemma_one_slot(&s1, self, fs_id, m0, m);
            assert forall|j: FileSystemID, i: INodeNum| j != fs_id implies #[trigger] self.data_of(j, i) == old(self).data_of(j, i) by {
                assert(s1.data_of(j, i) == s0.data_of(j, i));
            }
        }
        if let Err(e) = result {
            self.open_files.remove(fd);
            proof {
                lemma_same_tree_trans(old(self), &s1, self);
                assert forall|g: ProcessFileDescriptor| #[trigger] self.entry(g) == old(self).entry(g) by {
                    if g != fd {
                        assert(s1.entry(g) == s0.entry(g));
                    }
                }
                assert forall|j: FileSystemID, i: INodeNum| #[trigger] self.data_of(j, i) == old(self).data_of(j, i) by {
                    if j == fs_id {
                        assert(m.fs.file_data(i) == m0.fs.file_data(i));
                        assert(s1.data_of(j, i) == s0.data_of(j, i));
                    }
                }
            }
            return Err(e);
        }
        proof {
            lemma_same_tree_trans(old(self), &s1, self);
            assert forall|j: FileSystemID, g: ProcessFileDescriptor| g != fd implies #[trigger] self.inode_of(j, g) == old(self).inode_of(j, g) by {
                assert(s1.inode_of(j, g) == s0.inode_of(j, g));
                if j == fs_id {
                    if mode == Mode::ReadWrite {
                        assert(m_mid.fd_inode(g) == m0.fd_inode(g));
                    }
                    assert(m.fd_inode(g) == m0.fd_inode(g));
                }
            }
            if mode == Mode::ReadWrite {
                assert forall|j: FileSystemID, i: INodeNum| #[trigger] self.data_of(j, i) == old(self).data_of(j, i) by {
                    if j == fs_id {
                        assert(m.fs.file_data(i) == m0.fs.file_data(i));
                        assert(s1.data_of(j, i) == s0.data_of(j, i));
                    }
                }
            } else {
                assert forall|j: FileSystemID, i: INodeNum| (j, i) != (fs_id, m.fd_inode(fd)->0) implies #[trigger] self.data_of(j, i) == old(self).data_of(j, i) by {
                    if j == fs_id {
                        assert(m.fs.file_data(i) == m0.fs.file_data(i));
                        assert(s1.data_of(j, i) == s0.data_of(j, i));
                    }
                }
            }
        }
        Ok(fd.fd)
    }

    /// Open standard output for process `pid`, under its lowest free descriptor.
    pub fn open_stdout(&mut self, pid: Pid) -> (r: Result<FileDescriptor>)
        requires
            old(self).wf(),
        ensures
            final(self).same_fs(old(self)),
            match r {
                Ok(n) => old(self).lowest_free_fd(pid, n) && final(self).entry((ProcessFileDescriptor { pid, fd: n })) == Some(
                    OpenFile::StdOut,
                ) && forall|g: ProcessFileDescriptor| g != (ProcessFileDescriptor { pid, fd: n }) ==> #[trigger] final(self).entry(g)
                    == old(self).entry(g),
                Err(e) => e is TooManyOpenFiles && *final(self) == *old(self) && forall|k: FileDescriptor|
                    0 <= k < MAX_OPEN_FILES ==> (#[trigger] old(self).entry((ProcessFileDescriptor { pid, fd: k }))) is Some,
            },
    {
        let fd = self.open_files.new_fd(pid, OpenFile::StdOut)?;
        Ok(fd.fd)
    }

    /// Open the null file for process `pid`, under its lowest free descriptor.
    pub fn open_null(&mut self, pid: Pid) -> (r: Result<FileDescriptor>)
        requires
            old(self).wf(),
        ensures
            final(self).same_fs(old(self)),
            match r {
                Ok(n) => old(self).lowest_free_fd(pid, n) && final(self).entry((ProcessFileDescriptor { pid, fd: n })) == Some(
                    OpenFile::Null,
                ) && forall|g: ProcessFileDescriptor| g != (ProcessFileDescriptor { pid, fd: n }) ==> #[trigger] final(self).entry(g)
                    == old(self).entry(g),
                Err(e) => e is TooManyOpenFiles && *final(self) == *old(self) && forall|k: FileDescriptor|
                    0 <= k < MAX_OPEN_FILES ==> (#[trigger] old(self).entry((ProcessFileDescriptor { pid, fd: k }))) is Some,
            },
    {
        let fd = self.open_files.new_fd(pid, OpenFile::Null)?;
        Ok(fd.fd)
    }

    /// Whether `fd` is open on standard output (whose bytes the caller shows).
    pub fn is_stdout(&self, fd: ProcessFileDescriptor) -> (r: bool)
        ensures
            r == (self.entry(fd) == Some(OpenFile::StdOut)),
    {
        match self.open_files.lookup(fd) {
            Some(OpenFile::StdOut) => true,
            _ => false,
        }
    }
}

impl<F: FileSystem> RootFileSystem<F> {
    /// Read from open file `fd` at its offset, into `buf`, and move the offset
    /// past what was read. Reading standard output is refused; the null file
    /// reads nothing.
    pub fn read(&mut self, fd: ProcessFileDescriptor, buf: &mut [u8]) -> (r: Result<usize>)
        requires
            old(self).wf(),
        ensures
            final(self).same_fs(old(self)),
            final(buf)@.len() == old(buf)@.len(),
            forall|g: ProcessFileDescriptor| g != fd ==> #[trigger] final(self).entry(g) == old(self).entry(g),
            match old(self).entry(fd) {
                None => r matches Err(Error::BadFd) && final(self).entry(fd) is None,
                Some(OpenFile::StdOut) => r matches Err(Error::BadFd) && final(self).entry(fd) == old(self).entry(fd),
                Some(OpenFile::Null) => r == Ok::<usize, Error>(0) && final(self).entry(fd) == old(self).entry(fd),
                Some(OpenFile::Regular { fs, offset, is_dir }) => if is_dir {
                    r matches Err(Error::IsDirectory) && final(self).entry(fd) == old(self).entry(fd)
                } else {
                    match r {
                        Ok(n) => {
                            &&& final(self).entry(fd) == Some(OpenFile::Regular { fs, offset: advance(offset, n), is_dir })
                            &&& n <= old(buf)@.len()
                            &&& old(self).inode_of(fs, fd) matches Some(ino)
                            &&& (old(self).data_of(fs, ino) matches Some(d) ==> n == read_count(d.len() as int, offset as int, old(buf)@.len() as int)
                                && final(buf)@.subrange(0, n as int) == read_range(d, offset as int, n as int))
                        },
                        Err(_) => final(self).entry(fd) == old(self).entry(fd),
                    }
                },
            },
    {
        let info = match self.open_files.lookup(fd) {
            None => return Err(Error::BadFd),
            Some(i) => i,
        };
        match info {
            OpenFile::Regular { fs, offset, is_dir } => {
                if is_dir {
                    return Err(Error::IsDirectory);
                }
                let ghost s0 = *self;
                let mut m = match self.file_systems.take(fs) {
                    Some(m) => m,
                    None => {
                        proof { lemma_same_slots(&s0, self); }
                        return Err(Error::NotFound);
                    },
                };
                let ghost m0 = m;
                let result = m.read(fd, offset, buf);
                self.file_systems.put(fs, m);
                proof { lemma_slot_frame(&s0, self, fs, m0, m); }
                let n = result?;
                self.open_files.set(fd, OpenFile::Regular { fs, offset: advance_offset(offset, n), is_dir });
                Ok(n)
            },
            // shouldn't read from stdout
            OpenFile::StdOut => Err(Error::BadFd),
            OpenFile::Null => Ok(0),
        }
    }

    /// Write `buf` to open file `fd` at its offset, and move the offset past
    /// what was written. Standard output and the null file take every byte (the
    /// caller shows what goes to standard output).
    pub fn write(&mut self, fd: ProcessFileDescriptor, buf: &[u8]) -> (r: Result<usize>)
        requires
            old(self).wf(),
        ensures
            final(self).wf(),
            final(self).root_mount == old(self).root_mount,
            final(self).same_mounts(old(self)),
            final(self).same_inodes(old(self)),
            final(self).same_kinds(old(self)),
            forall|g: ProcessFileDescriptor| g != fd ==> #[trigger] final(self).entry(g) == old(self).entry(g),
            match old(self).entry(fd) {
                None => r matches Err(Error::BadFd) && final(self).entry(fd) is None && final(self).same_data(old(self)),
                Some(OpenFile::StdOut) => r == Ok::<usize, Error>(buf@.len() as usize) && final(self).entry(fd) == old(self).entry(fd)
                    && final(self).same_data(old(self)),
                Some(OpenFile::Null) => r == Ok::<usize, Error>(buf@.len() as usize) && final(self).entry(fd) == old(self).entry(fd)
                    && final(self).same_data(old(self)),
                Some(OpenFile::Regular { fs, offset, is_dir }) => if is_dir {
                    r matches Err(Error::IsDirectory) && final(self).entry(fd) == old(self).entry(fd) && final(self).same_data(old(self))
                } else {
                    match r {
                        Ok(n) => {
                            &&& n == buf@.len()
                            &&& final(self).entry(fd) == Some(OpenFile::Regular { fs, offset: advance(offset, n), is_dir })
                            &&& old(self).inode_of(fs, fd) matches Some(ino)
                            &&& (old(self).data_of(fs, ino) matches Some(d) ==> final(self).data_of(fs, ino) == Some(write_at(d, offset as int, buf@)))
                            &&& forall|j: FileSystemID, i: INodeNum| (j, i) != (fs, ino) ==> #[trigger] final(self).data_of(j, i) == old(self).data_of(j, i)
                        },
                        Err(_) => final(self).entry(fd) == old(self).entry(fd) && final(self).same_data(old(self)),
                    }
                },
            },
    {
        let info = match self.open_files.lookup(fd) {
            None => return Err(Error::BadFd),
            Some(i) => i,
        };
        match info {
            OpenFile::Regular { fs, offset, is_dir } => {
                if is_dir {
                    return Err(Error::IsDirectory);
                }
                let ghost s0 = *self;
                let mut m = match self.file_systems.take(fs) {
                    Some(m) => m,
                    None => {
                        proof { lemma_same_slots(&s0, self); }
                        return Err(Error::NotFound);
                    },
                };
                let ghost m0 = m;
                let result = m.write(fd, offset, buf);
                self.file_systems.put(fs, m);
                proof {
                    lemma_one_slot(&s0, self, fs, m0, m);
                    assert forall|j: FileSystemID| #[trigger] self.idle_of(j) == s0.idle_of(j) by {}
                    assert forall|j: FileSystemID, i: INodeNum| #[trigger] self.kind_of(j, i) == s0.kind_of(j, i) by {
                        if j == fs {
                            assert(m.fs.inode_kind(i) == m0.fs.inode_kind(i));
                        }
                    }
                    assert forall|j: FileSystemID, g: ProcessFileDescriptor| #[trigger] self.inode_of(j, g) == s0.inode_of(j, g) by {}
                    if result.is_err() {
                        assert forall|j: FileSystemID, i: INodeNum| #[trigger] self.data_of(j, i) == s0.data_of(j, i) by {
                            if j == fs {
                                assert(m.fs.file_data(i) == m0.fs.file_data(i));
                            }
                        }
                    } else {
                        let ino = m0.fd_inode(fd)->0;
                        assert forall|j: FileSystemID, i: INodeNum| (j, i) != (fs, ino) implies #[trigger] self.data_of(j, i) == s0.data_of(j, i) by {
                            if j == fs {
                                assert(m.fs.file_data(i) == m0.fs.file_data(i));
                            }
                        }
                    }
                }
                let n = result?;
                self.open_files.set(fd, OpenFile::Regular { fs, offset: advance_offset(offset, n), is_dir });
                Ok(n)
            },
            OpenFile::StdOut => Ok(buf.len()),
            OpenFile::Null => Ok(buf.len()),
        }
    }

    /// Close open file `fd`. If this returns an error other than `BadFd`, the
    /// file is closed all the same.
    pub fn close(&mut self, fd: ProcessFileDescriptor) -> (r: Result<()>)
        requires
            old(self).wf(),
        ensures
            final(self).wf(),
            final(self).root_mount == old(self).root_mount,
            final(self).same_tree(old(self)),
            final(self).same_data(old(self)),
            final(self).entry(fd) is None,
            forall|g: ProcessFileDescriptor| g != fd ==> #[trigger] final(self).entry(g) == old(self).entry(g),
            forall|j: FileSystemID, g: ProcessFileDescriptor| g != fd ==> #[trigger] final(self).inode_of(j, g) == old(self).inode_of(j, g),
            match old(self).entry(fd) {
                None => r matches Err(Error::BadFd),
                Some(OpenFile::Regular { fs, .. }) => (r is Ok <==> old(self).inode_of(fs, fd) is Some) && final(self).inode_of(fs, fd) is None,
                Some(_) => r is Ok,
            },
    {
        let info = match self.open_files.lookup(fd) {
            None => return Err(Error::BadFd),
            Some(i) => i,
        };
        let ghost s0 = *self;
        let mut result: Result<()> = Ok(());
        if let OpenFile::Regular { fs, .. } = info {
            match self.file_systems.take(fs) {
                Some(mut m) => {
                    let ghost m0 = m;
                    result = m.close(fd);
                    self.file_systems.put(fs, m);
                    proof {
                        lemma_one_slot(&s0, self, fs, m0, m);
                        assert forall|j: FileSystemID, i: INodeNum| #[trigger] self.data_of(j, i) == s0.data_of(j, i) by {
                            if j == fs {
                                assert(m.fs.file_data(i) == m0.fs.file_data(i));
                            }
                        }
                        assert forall|j: FileSystemID, g: ProcessFileDescriptor| g != fd implies #[trigger] self.inode_of(j, g) == s0.inode_of(j, g) by {}
                    }
                },
                None => {
                    proof { lemma_same_slots(&s0, self); }
                    result = Err(Error::NotFound);
                },
            }
        } else {
            proof { lemma_same_slots(&s0, self); }
        }
        // nothing to do for the other kinds of open file
        self.open_files.remove(fd);
        result
    }

    /// Create the directory at `path`.
    pub fn mkdir(&mut self, process: &ProcessControlBlock, path: &[u8]) -> (r: Result<()>)
        requires
            old(self).wf(),
        ensures
            final(self).wf(),
            final(self).root_mount == old(self).root_mount,
            final(self).open_files == old(self).open_files,
            final(self).same_tree(old(self)),
            final(self).same_data(old(self)),
            final(self).same_inodes(old(self)),
            old(self).root_mount is None ==> r matches Err(Error::NotFound),
            is_special_name(spec_dirname_and_filename(path@).1) ==> r is Err,
    {
        let (dir, name) = dirname_and_filename(path);
        let (fs, parent) = self.resolve_path(process, dir.as_slice())?;
        let ghost s0 = *self;
        let mut m = match self.file_systems.take(fs) {
            Some(m) => m,
            None => return Err(Error::NotFound),
        };
        let ghost m0 = m;
        let result = m.mkdir(parent, name.as_slice());
        self.file_systems.put(fs, m);
        proof {
            lemma_one_slot(&s0, self, fs, m0, m);
            lemma_same_tree_trans(old(self), &s0, self);
            assert forall|j: FileSystemID, i: INodeNum| #[trigger] self.data_of(j, i) == old(self).data_of(j, i) by {
                assert(s0.data_of(j, i) == old(self).data_of(j, i));
                if j == fs {
                    assert(m.fs.file_data(i) == m0.fs.file_data(i));
                }
            }
            assert forall|j: FileSystemID, g: ProcessFileDescriptor| #[trigger] self.inode_of(j, g) == old(self).inode_of(j, g) by {
                assert(s0.inode_of(j, g) == old(self).inode_of(j, g));
            }
        }
        result
    }

    /// Information about open file `fd`.
    pub fn fstat(&mut self, fd: ProcessFileDescriptor) -> (r: Result<FileInfo>)
        requires
            old(self).wf(),
        ensures
            final(self).same_state(old(self)),
            match old(self).entry(fd) {
                None => r matches Err(Error::BadFd),
                Some(OpenFile::Regular { fs, .. }) => (r matches Ok(info) ==> (old(self).inode_of(fs, fd) matches Some(ino)
                    && old(self).kind_of(fs, ino) == Some(info.kind) && (old(self).data_of(fs, ino) matches Some(d) ==> info.size == d.len()))),
                Some(_) => r matches Err(Error::NotFound),
            },
    {
        let info = match self.open_files.lookup(fd) {
            None => return Err(Error::BadFd),
            Some(i) => i,
        };
        match info {
            OpenFile::Regular { fs, .. } => {
                let ghost s0 = *self;
                let mut m = match self.file_systems.take(fs) {
                    Some(m) => m,
                    None => {
                        proof { lemma_same_slots(&s0, self); }
                        return Err(Error::NotFound);
                    },
                };
                let ghost m0 = m;
                let result = m.fstat(fd);
                self.file_systems.put(fs, m);
                proof { lemma_slot_frame(&s0, self, fs, m0, m); }
                result
            },
            _ => Err(Error::NotFound),
        }
    }
}

impl<F: FileSystem> RootFileSystem<F> {
    /// Move the offset of open file `fd` to `offset` past the start, the
    /// current offset or the end of the file. Only a seek from the start is
    /// allowed on a directory; only regular files and directories can seek.
    pub fn lseek(&mut self, fd: ProcessFileDescriptor, whence: SeekFrom, offset: i64) -> (r: Result<i64>)
        requires
            old(self).wf(),
        ensures
            final(self).same_fs(old(self)),
            forall|g: ProcessFileDescriptor| g != fd ==> #[trigger] final(self).entry(g) == old(self).entry(g),
            match old(self).entry(fd) {
                None => r matches Err(Error::BadFd) && final(self).entry(fd) is None,
                Some(OpenFile::Regular { fs, offset: cur, is_dir }) => if is_dir && whence != SeekFrom::Start {
                    r matches Err(Error::IsDirectory) && final(self).entry(fd) == old(self).entry(fd)
                } else if whence == SeekFrom::End {
                    match r {
                        Ok(v) => {
                            &&& 0 <= v
                            &&& final(self).entry(fd) == Some(OpenFile::Regular { fs, offset: v as u64, is_dir })
                            &&& old(self).inode_of(fs, fd) matches Some(ino)
                            &&& (old(self).data_of(fs, ino) matches Some(d) ==> seek_target((d.len() as u64) as i64, offset) == Some(v))
                        },
                        Err(_) => final(self).entry(fd) == old(self).entry(fd),
                    }
                } else {
                    match seek_target(if whence == SeekFrom::Start { 0i64 } else { cur as i64 }, offset) {
                        None => r matches Err(Error::BadOffset) && final(self).entry(fd) == old(self).entry(fd),
                        Some(v) => r == Ok::<i64, Error>(v) && final(self).entry(fd) == Some(OpenFile::Regular { fs, offset: v as u64, is_dir }),
                    }
                },
                Some(_) => r matches Err(Error::IllegalSeek) && final(self).entry(fd) == old(self).entry(fd),
            },
    {
        let info = match self.open_files.lookup(fd) {
            None => return Err(Error::BadFd),
            Some(i) => i,
        };
        let (fs, file_offset, is_dir) = match info {
            OpenFile::Regular { fs, offset, is_dir } => (fs, offset, is_dir),
            _ => return Err(Error::IllegalSeek),
        };
        let base: i64 = match whence {
            SeekFrom::Start => 0,
            SeekFrom::Current => {
                // only a seek from the start is allowed on a directory
                if is_dir {
                    return Err(Error::IsDirectory);
                }
                file_offset as i64
            },
            SeekFrom::End => {
                if is_dir {
                    return Err(Error::IsDirectory);
                }
                let ghost s0 = *self;
                let mut m = match self.file_systems.take(fs) {
                    Some(m) => m,
                    None => {
                        proof { lemma_same_slots(&s0, self); }
                        return Err(Error::NotFound);
                    },
                };
                let ghost m0 = m;
                let size = m.size_of_file(fd);
                self.file_systems.put(fs, m);
                proof { lemma_slot_frame(&s0, self, fs, m0, m); }
                size? as i64
            },
        };
        let new_offset = match seek_to(base, offset) {
            Some(v) => v,
            None => return Err(Error::BadOffset),
        };
        self.open_files.set(fd, OpenFile::Regular { fs, offset: new_offset as u64, is_dir });
        Ok(new_offset)
    }

    /// Open the standard input, output and error files of process `pid`, as
    /// descriptors 0 (the null file, for now), 1 and 2 (both standard output).
    pub fn open_standard_fds(&mut self, pid: Pid)
        requires
            old(self).wf(),
            forall|k: FileDescriptor| 0 <= k < 3 ==> (#[trigger] old(self).entry((ProcessFileDescriptor { pid, fd: k }))) is None,
        ensures
            final(self).same_fs(old(self)),
            final(self).entry((ProcessFileDescriptor { pid, fd: 0 })) == Some(OpenFile::Null),
            final(self).entry((ProcessFileDescriptor { pid, fd: 1 })) == Some(OpenFile::StdOut),
            final(self).entry((ProcessFileDescriptor { pid, fd: 2 })) == Some(OpenFile::StdOut),
            forall|g: ProcessFileDescriptor| !(g.pid == pid && 0 <= g.fd < 3) ==> #[trigger] final(self).entry(g) == old(self).entry(g),
    {
        let ghost s0 = *self;
        assert(s0.entry((ProcessFileDescriptor { pid, fd: 0 })) is None);
        // for now, standard input reads nothing
        let _ = self.open_null(pid);
        let ghost s1 = *self;
        assert(s1.entry((ProcessFileDescriptor { pid, fd: 1 })) is None);
        let _ = self.open_stdout(pid);
        let ghost s2 = *self;
        assert(s2.entry((ProcessFileDescriptor { pid, fd: 2 })) is None);
        // standard error goes to standard output
        let _ = self.open_stdout(pid);
        proof {
            assert(s1.entry((ProcessFileDescriptor { pid, fd: 0 })) == Some(OpenFile::Null));
            assert(s2.entry((ProcessFileDescriptor { pid, fd: 1 })) == Some(OpenFile::StdOut));
            assert(s2.entry((ProcessFileDescriptor { pid, fd: 0 })) == Some(OpenFile::Null));
        }
    }
}

impl<F: FileSystem> RootFileSystem<F> {
    /// Change the working directory of `process` to the directory at `path`,
    /// keeping a reference on it (so that its file system stays mounted) in
    /// place of the reference on the previous one.
    pub fn chdir(&mut self, process: &mut ProcessControlBlock, path: &[u8]) -> (r: Result<()>)
        requires
            old(self).wf(),
            spec_chdir_path(old(process).cwd_path@, path@) is Some,
        ensures
            final(self).wf(),
            final(self).root_mount == old(self).root_mount,
            final(self).open_files == old(self).open_files,
            final(self).same_tree(old(self)),
            final(self).same_data(old(self)),
            final(self).same_kinds(old(self)),
            final(self).same_inodes(old(self)),
            final(process).pid == old(process).pid,
            old(self).root_mount is None ==> r matches Err(Error::NotFound),
            match r {
                Ok(()) => {
                    &&& Some(final(process).cwd_path@) == spec_chdir_path(old(process).cwd_path@, path@)
                    &&& final(self).kind_of(final(process).cwd.0, final(process).cwd.1) == Some(INodeType::Directory)
                },
                Err(_) => final(process).cwd == old(process).cwd && final(process).cwd_path == old(process).cwd_path,
            },
    {
        let ghost s0 = *self;
        if !(process.cwd_path.len() == 1 && process.cwd_path[0] == SLASH) {
            // drop the reference on the previous working directory
            let (prev_fs, prev_inode) = process.cwd;
            if let Some(mut m) = self.file_systems.take(prev_fs) {
                let ghost m0 = m;
                m.dec_ref(prev_inode);
                self.file_systems.put(prev_fs, m);
                proof {
                    lemma_one_slot(&s0, self, prev_fs, m0, m);
                    assert forall|j: FileSystemID, i: INodeNum| #[trigger] self.data_of(j, i) == s0.data_of(j, i) by {
                        if j == prev_fs {
                            assert(m.fs.file_data(i) == m0.fs.file_data(i));
                        }
                    }
                    assert forall|j: FileSystemID, i: INodeNum| #[trigger] self.kind_of(j, i) == s0.kind_of(j, i) by {
                        if j == prev_fs {
                            assert(m.fs.inode_kind(i) == m0.fs.inode_kind(i));
                        }
                    }
                    assert forall|j: FileSystemID, g: ProcessFileDescriptor| #[trigger] self.inode_of(j, g) == s0.inode_of(j, g) by {}
                }
            } else {
                proof { lemma_same_slots(&s0, self); }
            }
        } else {
            proof { lemma_same_slots(&s0, self); }
        }
        let ghost s1 = *self;
        let resolved = self.resolve_path(process, path);
        let ghost s2 = *self;
        proof {
            lemma_same_tree_trans(&s0, &s1, &s2);
            assert forall|j: FileSystemID, i: INodeNum| #[trigger] s2.data_of(j, i) == s0.data_of(j, i) by {
                assert(s2.data_of(j, i) == s1.data_of(j, i));
            }
            assert forall|j: FileSystemID, i: INodeNum| #[trigger] s2.kind_of(j, i) == s0.kind_of(j, i) by {
                assert(s2.kind_of(j, i) == s1.kind_of(j, i));
            }
            assert forall|j: FileSystemID, g: ProcessFileDescriptor| #[trigger] s2.inode_of(j, g) == s0.inode_of(j, g) by {
                assert(s2.inode_of(j, g) == s1.inode_of(j, g));
            }
        }
        let (fs_id, inode) = resolved?;
        let mut m = match self.file_systems.take(fs_id) {
            Some(m) => m,
            None => return Err(Error::NotFound),
        };
        let ghost m0 = m;
        let kind = m.inode_type(inode);
        let is_dir = match kind {
            Ok(t) => t == INodeType::Directory,
            Err(_) => false,
        };
        if is_dir {
            // keep a reference on the new working directory (which keeps it from
            // being unmounted)
            m.inc_ref(inode);
        }
        self.file_systems.put(fs_id, m);
        proof {
            lemma_one_slot(&s2, self, fs_id, m0, m);
            lemma_same_tree_trans(&s0, &s2, self);
            assert forall|j: FileSystemID, i: INodeNum| #[trigger] self.data_of(j, i) == old(self).data_of(j, i) by {
                assert(s2.data_of(j, i) == s0.data_of(j, i));
                if j == fs_id {
                    assert(m.fs.file_data(i) == m0.fs.file_data(i));
                }
            }
            assert forall|j: FileSystemID, i: INodeNum| #[trigger] self.kind_of(j, i) == old(self).kind_of(j, i) by {
                assert(s2.kind_of(j, i) == s0.kind_of(j, i));
                if j == fs_id {
                    assert(m.fs.inode_kind(i) == m0.fs.inode_kind(i));
                }
            }
            assert forall|j: FileSystemID, g: ProcessFileDescriptor| #[trigger] self.inode_of(j, g) == old(self).inode_of(j, g) by {
                assert(s2.inode_of(j, g) == s0.inode_of(j, g));
            }
        }
        match kind {
            Err(e) => return Err(e),
            Ok(_) => {
                if !is_dir {
                    return Err(Error::NotDirectory);
                }
            },
        }
        let new_path = match chdir_path(&process.cwd_path, path) {
            Some(p) => p,
            None => return Err(Error::NotFound),
        };
        process.cwd = (fs_id, inode);
        process.cwd_path = new_path;
        Ok(())
    }

    /// Remove the file at `path`.
    pub fn unlink(&mut self, process: &ProcessControlBlock, path: &[u8]) -> (r: Result<()>)
        requires
            old(self).wf(),
        ensures
            final(self).wf(),
            final(self).root_mount == old(self).root_mount,
            final(self).open_files == old(self).open_files,
            final(self).same_tree(old(self)),
            final(self).same_inodes(old(self)),
            old(self).root_mount is None ==> r matches Err(Error::NotFound),
    {
        let (dir, name) = dirname_and_filename(path);
        let (fs, parent) = self.resolve_path(process, dir.as_slice())?;
        let ghost s0 = *self;
        let mut m = match self.file_systems.take(fs) {
            Some(m) => m,
            None => return Err(Error::NotFound),
        };
        let ghost m0 = m;
        let result = m.unlink(parent, name.as_slice());
        self.file_systems.put(fs, m);
        proof {
            lemma_one_slot(&s0, self, fs, m0, m);
            lemma_same_tree_trans(old(self), &s0, self);
            assert forall|j: FileSystemID, g: ProcessFileDescriptor| #[trigger] self.inode_of(j, g) == old(self).inode_of(j, g) by {
                assert(s0.inode_of(j, g) == old(self).inode_of(j, g));
            }
        }
        result
    }

    /// Remove the empty directory at `path`.
    pub fn rmdir(&mut self, process: &ProcessControlBlock, path: &[u8]) -> (r: Result<()>)
        requires
            old(self).wf(),
        ensures
            final(self).wf(),
            final(self).root_mount == old(self).root_mount,
            final(self).open_files == old(self).open_files,
            final(self).same_tree(old(self)),
            final(self).same_data(old(self)),
            final(self).same_inodes(old(self)),
            old(self).root_mount is None ==> r matches Err(Error::NotFound),
    {
        let (dir, name) = dirname_and_filename(path);
        let (fs, parent) = self.resolve_path(process, dir.as_slice())?;
        let ghost s0 = *self;
        let mut m = match self.file_systems.take(fs) {
            Some(m) => m,
            None => return Err(Error::NotFound),
        };
        let ghost m0 = m;
        let result = m.rmdir(parent, name.as_slice());
        self.file_systems.put(fs, m);
        proof {
            lemma_one_slot(&s0, self, fs, m0, m);
            lemma_same_tree_trans(old(self), &s0, self);
            assert forall|j: FileSystemID, i: INodeNum| #[trigger] self.data_of(j, i) == old(self).data_of(j, i) by {
                assert(s0.data_of(j, i) == old(self).data_of(j, i));
                if j == fs {
                    assert(m.fs.file_data(i) == m0.fs.file_data(i));
                }
            }
            assert forall|j: FileSystemID, g: ProcessFileDescriptor| #[trigger] self.inode_of(j, g) == old(self).inode_of(j, g) by {
                assert(s0.inode_of(j, g) == old(self).inode_of(j, g));
            }
        }
        result
    }

    /// Make `dest` a hard link to the file at `source`; both must be on the
    /// same file system.
    pub fn link(&mut self, process: &ProcessControlBlock, source: &[u8], dest: &[u8]) -> (r: Result<()>)
        requires
            old(self).wf(),
        ensures
            final(self).wf(),
            final(self).root_mount == old(self).root_mount,
            final(self).open_files == old(self).open_files,
            final(self).same_tree(old(self)),
            final(self).same_data(old(self)),
            final(self).same_inodes(old(self)),
            old(self).root_mount is None ==> r matches Err(Error::NotFound),
            is_special_name(spec_dirname_and_filename(dest@).1) ==> r is Err,
    {
        let (source_fs, inode) = self.resolve_path(process, source)?;
        let (dir, name) = dirname_and_filename(dest);
        let ghost s0 = *self;
        let (parent_fs, parent_inode) = match self.resolve_path(process, dir.as_slice()) {
            Ok(p) => p,
            Err(e) => {
                proof { lemma_same_state_trans(old(self), &s0, self); }
                return Err(e);
            },
        };
        let ghost s1 = *self;
        proof { lemma_same_state_trans(old(self), &s0, &s1); }
        if parent_fs != source_fs {
            return Err(Error::HardLinkBetweenFileSystems);
        }
        let mut m = match self.file_systems.take(source_fs) {
            Some(m) => m,
            None => return Err(Error::NotFound),
        };
        let ghost m0 = m;
        let result = m.link(inode, parent_inode, name.as_slice());
        self.file_systems.put(source_fs, m);
        proof {
            lemma_one_slot(&s1, self, source_fs, m0, m);
            lemma_same_tree_trans(old(self), &s1, self);
            assert forall|j: FileSystemID, i: INodeNum| #[trigger] self.data_of(j, i) == old(self).data_of(j, i) by {
                assert(s1.data_of(j, i) == old(self).data_of(j, i));
                if j == source_fs {
                    assert(m.fs.file_data(i) == m0.fs.file_data(i));
                }
            }
            assert forall|j: FileSystemID, g: ProcessFileDescriptor| #[trigger] self.inode_of(j, g) == old(self).inode_of(j, g) by {
                assert(s1.inode_of(j, g) == old(self).inode_of(j, g));
            }
        }
        result
    }

    /// Make `dest` a symbolic link to the path `source`.
    pub fn symlink(&mut self, process: &ProcessControlBlock, source: &[u8], dest: &[u8]) -> (r: Result<()>)
        requires
            old(self).wf(),
        ensures
            final(self).wf(),
            final(self).root_mount == old(self).root_mount,
            final(self).open_files == old(self).open_files,
            final(self).same_tree(old(self)),
            final(self).same_data(old(self)),
            final(self).same_inodes(old(self)),
            old(self).root_mount is None ==> r matches Err(Error::NotFound),
            is_special_name(spec_dirname_and_filename(dest@).1) ==> r is Err,
    {
        let (dir, name) = dirname_and_filename(dest);
        let (parent_fs, parent_inode) = self.resolve_path(process, dir.as_slice())?;
        let ghost s0 = *self;
        let mut m = match self.file_systems.take(parent_fs) {
            Some(m) => m,
            None => return Err(Error::NotFound),
        };
        let ghost m0 = m;
        let result = m.symlink(source, parent_inode, name.as_slice());
        self.file_systems.put(parent_fs, m);
        proof {
            lemma_one_slot(&s0, self, parent_fs, m0, m);
            lemma_same_tree_trans(old(self), &s0, self);
            assert forall|j: FileSystemID, i: INodeNum| #[trigger] self.data_of(j, i) == old(self).data_of(j, i) by {
                assert(s0.data_of(j, i) == old(self).data_of(j, i));
                if j == parent_fs {
                    assert(m.fs.file_data(i) == m0.fs.file_data(i));
                }
            }
            assert forall|j: FileSystemID, g: ProcessFileDescriptor| #[trigger] self.inode_of(j, g) == old(self).inode_of(j, g) by {
                assert(s0.inode_of(j, g) == old(self).inode_of(j, g));
            }
        }
        result
    }

    /// Move the entry at `source` to `dest`; both must be on the same file
    /// system.
    pub fn rename(&mut self, process: &ProcessControlBlock, source: &[u8], dest: &[u8]) -> (r: Result<()>)
        requires
            old(self).wf(),
        ensures
            final(self).wf(),
            final(self).root_mount == old(self).root_mount,
            final(self).open_files == old(self).open_files,
            final(self).same_tree(old(self)),
            final(self).same_inodes(old(self)),
            old(self).root_mount is None ==> r matches Err(Error::NotFound),
    {
        let (source_dir, source_name) = dirname_and_filename(source);
        let (dest_dir, dest_name) = dirname_and_filename(dest);
        let (source_parent_fs, source_parent) = self.resolve_path(process, source_dir.as_slice())?;
        let ghost s0 = *self;
        let (dest_parent_fs, dest_parent) = match self.resolve_path(process, dest_dir.as_slice()) {
            Ok(p) => p,
            Err(e) => {
                proof { lemma_same_state_trans(old(self), &s0, self); }
                return Err(e);
            },
        };
        let ghost s1 = *self;
        proof { lemma_same_state_trans(old(self), &s0, &s1); }
        if source_parent_fs != dest_parent_fs {
            // moving between file systems is not supported
            return Err(Error::HardLinkBetweenFileSystems);
        }
        let mut m = match self.file_systems.take(source_parent_fs) {
            Some(m) => m,
            None => return Err(Error::NotFound),
        };
        let ghost m0 = m;
        let result = m.rename(source_parent, source_name.as_slice(), dest_parent, dest_name.as_slice());
        self.file_systems.put(source_parent_fs, m);
        proof {
            lemma_one_slot(&s1, self, source_parent_fs, m0, m);
            lemma_same_tree_trans(old(self), &s1, self);
            assert forall|j: FileSystemID, g: ProcessFileDescriptor| #[trigger] self.inode_of(j, g) == old(self).inode_of(j, g) by {
                assert(s1.inode_of(j, g) == old(self).inode_of(j, g));
            }
        }
        result
    }

    /// Write the buffered changes of every mounted file system to its device;
    /// every one is synced even when one fails, and the first failure is
    /// returned.
    pub fn sync(&mut self) -> (r: Result<()>)
        requires
            old(self).wf(),
        ensures
            final(self).same_state(old(self)),
            (forall|id: FileSystemID| id < MAX_MOUNT_POINTS ==> (#[trigger] old(self).fs_at(id)) is None) ==> r is Ok,
    {
        let mut result: Result<()> = Ok(());
        let mut id: u16 = 0;
        let ghost s0 = *self;
        proof { lemma_same_state_refl(&s0); }
        while id < MAX_MOUNT_POINTS
            invariant
                s0 == *old(self),
                s0.wf(),
                self.same_state(&s0),
                id <= MAX_MOUNT_POINTS,
                (forall|j: FileSystemID| j < id ==> (#[trigger] s0.fs_at(j)) is None) ==> result is Ok,
            decreases MAX_MOUNT_POINTS - id,
        {
            let ghost s1 = *self;
            proof {
                assert(self.fs_at(id) is Some <==> s0.fs_at(id) is Some);
            }
            if let Some(mut m) = self.file_systems.take(id) {
                let ghost m0 = m;
                let synced = m.sync();
                self.file_systems.put(id, m);
                proof {
                    lemma_slot_frame(&s1, self, id, m0, m);
                    lemma_same_state_trans(&s0, &s1, self);
                }
                result = match result {
                    Ok(()) => synced,
                    Err(e) => Err(e),
                };
            } else {
                proof {
                    lemma_same_slots(&s1, self);
                    lemma_same_state_trans(&s0, &s1, self);
                }
            }
            id = id + 1;
        }
        result
    }

    /// Write the directory records of directory file `fd` into `output`, from
    /// its offset on, and move the offset past them; returns the number of
    /// bytes written.
    pub fn getdents(&mut self, fd: ProcessFileDescriptor, output: &mut [u8]) -> (r: Result<usize>)
        requires
            old(self).wf(),
        ensures
            final(self).same_fs(old(self)),
            final(output)@.len() == old(output)@.len(),
            forall|g: ProcessFileDescriptor| g != fd ==> #[trigger] final(self).entry(g) == old(self).entry(g),
            match old(self).entry(fd) {
                None => r matches Err(Error::BadFd) && final(self).entry(fd) is None,
                Some(OpenFile::Regular { fs, offset: _, is_dir: true }) => final(self).entry(fd) matches Some(
                    OpenFile::Regular { fs: f, offset: _, is_dir: true },
                ) && f == fs,
                Some(_) => r matches Err(Error::NotDirectory) && final(self).entry(fd) == old(self).entry(fd),
            },
    {
        let info = match self.open_files.lookup(fd) {
            None => return Err(Error::BadFd),
            Some(i) => i,
        };
        match info {
            OpenFile::Regular { fs, offset, is_dir: true } => {
                let ghost s0 = *self;
                let mut m = match self.file_systems.take(fs) {
                    Some(m) => m,
                    None => {
                        proof { lemma_same_slots(&s0, self); }
                        return Err(Error::NotFound);
                    },
                };
                let ghost m0 = m;
                let mut new_offset = offset;
                let result = m.getdents(fd, &mut new_offset, output);
                self.file_systems.put(fs, m);
                proof { lemma_slot_frame(&s0, self, fs, m0, m); }
                self.open_files.set(fd, OpenFile::Regular { fs, offset: new_offset, is_dir: true });
                result
            },
            _ => Err(Error::NotDirectory),
        }
    }

    /// Cut or zero-extend open file `fd` to `size` bytes; an offset past the
    /// new end moves back to it.
    pub fn ftruncate(&mut self, fd: ProcessFileDescriptor, size: u64) -> (r: Result<()>)
        requires
            old(self).wf(),
        ensures
            final(self).wf(),
            final(self).root_mount == old(self).root_mount,
            final(self).same_mounts(old(self)),
            final(self).same_inodes(old(self)),
            final(self).same_kinds(old(self)),
            forall|g: ProcessFileDescriptor| g != fd ==> #[trigger] final(self).entry(g) == old(self).entry(g),
            match old(self).entry(fd) {
                None => r matches Err(Error::BadFd) && final(self).entry(fd) is None && final(self).same_data(old(self)),
                Some(OpenFile::Regular { fs, offset, is_dir }) => if is_dir {
                    r matches Err(Error::IsDirectory) && final(self).entry(fd) == old(self).entry(fd) && final(self).same_data(old(self))
                } else {
                    &&& final(self).entry(fd) == Some(OpenFile::Regular { fs, offset: if offset > size { size } else { offset }, is_dir })
                    &&& r is Err ==> final(self).same_data(old(self))
                    &&& r is Ok ==> (old(self).inode_of(fs, fd) matches Some(ino) && (old(self).data_of(fs, ino) matches Some(d)
                        ==> final(self).data_of(fs, ino) == Some(truncate_to(d, size as int))) && forall|j: FileSystemID, i: INodeNum|
                        (j, i) != (fs, ino) ==> #[trigger] final(self).data_of(j, i) == old(self).data_of(j, i))
                },
                Some(_) => r matches Err(Error::IO(_)) && final(self).entry(fd) == old(self).entry(fd) && final(self).same_data(old(self)),
            },
    {
        let info = match self.open_files.lookup(fd) {
            None => return Err(Error::BadFd),
            Some(i) => i,
        };
        match info {
            OpenFile::Regular { fs, offset, is_dir } => {
                if is_dir {
                    return Err(Error::IsDirectory);
                }
                if offset > size {
                    self.open_files.set(fd, OpenFile::Regular { fs, offset: size, is_dir });
                }
                let ghost s0 = *self;
                let mut m = match self.file_systems.take(fs) {
                    Some(m) => m,
                    None => {
                        proof { lemma_same_slots(&s0, self); }
                        return Err(Error::NotFound);
                    },
                };
                let ghost m0 = m;
                let result = m.ftruncate(fd, size);
                self.file_systems.put(fs, m);
                proof {
                    lemma_one_slot(&s0, self, fs, m0, m);
                    assert forall|j: FileSystemID| #[trigger] self.idle_of(j) == s0.idle_of(j) by {}
                    assert forall|j: FileSystemID, i: INodeNum| #[trigger] self.kind_of(j, i) == s0.kind_of(j, i) by {
                        if j == fs {
                            assert(m.fs.inode_kind(i) == m0.fs.inode_kind(i));
                        }
                    }
                    assert forall|j: FileSystemID, g: ProcessFileDescriptor| #[trigger] self.inode_of(j, g) == s0.inode_of(j, g) by {}
                    if result.is_err() {
                        assert forall|j: FileSystemID, i: INodeNum| #[trigger] self.data_of(j, i) == s0.data_of(j, i) by {
                            if j == fs {
                                assert(m.fs.file_data(i) == m0.fs.file_data(i));
                            }
                        }
                    } else {
                        let ino = m0.fd_inode(fd)->0;
                        assert forall|j: FileSystemID, i: INodeNum| (j, i) != (fs, ino) implies #[trigger] self.data_of(j, i) == s0.data_of(j, i) by {
                            if j == fs {
                                assert(m.fs.file_data(i) == m0.fs.file_data(i));
                            }
                        }
                    }
                }
                result
            },
            _ => Err(Error::io("can't truncate special file")),
        }
    }

    /// Close every file that process `pid` has open (ignoring errors), and
    /// drop its reference on its working directory `cwd`, if it has one. This
    /// is for when the process exits.
    pub fn close_all(&mut self, pid: Pid, cwd: Option<(FileSystemID, INodeNum)>)
        requires
            old(self).wf(),
        ensures
            final(self).wf(),
            final(self).root_mount == old(self).root_mount,
            final(self).same_tree(old(self)),
            final(self).same_data(old(self)),
            forall|k: FileDescriptor| #[trigger] final(self).entry((ProcessFileDescriptor { pid, fd: k })) is None,
            forall|g: ProcessFileDescriptor| g.pid != pid ==> #[trigger] final(self).entry(g) == old(self).entry(g),
    {
        let fds = self.open_files.fds_of(pid);
        proof {
            assert forall|k: FileDescriptor| (#[trigger] self.entry((ProcessFileDescriptor { pid, fd: k }))) is Some implies exists|j: int|
                0 <= j < fds@.len() && fds@[j] == k by {
                assert(fds@.contains(k));
            }
        }
        let mut i: usize = 0;
        while i < fds.len()
            invariant
                i <= fds@.len(),
                self.wf(),
                self.root_mount == old(self).root_mount,
                self.same_tree(old(self)),
                self.same_data(old(self)),
                forall|k: FileDescriptor| #[trigger] fds@.contains(k) <==> old(self).entry((ProcessFileDescriptor { pid, fd: k })) is Some,
                forall|k: FileDescriptor| (#[trigger] self.entry((ProcessFileDescriptor { pid, fd: k }))) is Some ==> exists|j: int|
                    i <= j < fds@.len() && fds@[j] == k,
                forall|g: ProcessFileDescriptor| g.pid != pid ==> #[trigger] self.entry(g) == old(self).entry(g),
            decreases fds@.len() - i,
        {
            let ghost s1 = *self;
            let k = fds[i];
            let _ = self.close(ProcessFileDescriptor { pid, fd: k });
            proof {
                lemma_same_tree_trans(old(self), &s1, self);
                assert forall|j: FileSystemID, ino: INodeNum| #[trigger] self.data_of(j, ino) == old(self).data_of(j, ino) by {
                    assert(s1.data_of(j, ino) == old(self).data_of(j, ino));
                }
                assert forall|q: FileDescriptor| (#[trigger] self.entry((ProcessFileDescriptor { pid, fd: q }))) is Some implies exists|j: int|
                    i + 1 <= j < fds@.len() && fds@[j] == q by {
                    assert(s1.entry((ProcessFileDescriptor { pid, fd: q })) is Some);
                    let j = choose|j: int| i <= j < fds@.len() && fds@[j] == q;
                    assert(j != i);
                }
                assert forall|g: ProcessFileDescriptor| g.pid != pid implies #[trigger] self.entry(g) == old(self).entry(g) by {
                    assert(s1.entry(g) == old(self).entry(g));
                }
            }
            i = i + 1;
        }
        proof {
            assert forall|k: FileDescriptor| #[trigger] self.entry((ProcessFileDescriptor { pid, fd: k })) is None by {
                if self.entry((ProcessFileDescriptor { pid, fd: k })) is Some {
                    let j = choose|j: int| i <= j < fds@.len() && fds@[j] == k;
                }
            }
        }
        let ghost s_end = *self;
        if let Some((cwd_fs, cwd_inode)) = cwd {
            let ghost s1 = *self;
            if let Some(mut m) = self.file_systems.take(cwd_fs) {
                let ghost m0 = m;
                m.dec_ref(cwd_inode);
                self.file_systems.put(cwd_fs, m);
                proof {
                    lemma_one_slot(&s1, self, cwd_fs, m0, m);
                    lemma_same_tree_trans(old(self), &s1, self);
                    assert forall|j: FileSystemID, ino: INodeNum| #[trigger] self.data_of(j, ino) == old(self).data_of(j, ino) by {
                        assert(s1.data_of(j, ino) == old(self).data_of(j, ino));
                        if j == cwd_fs {
                            assert(m.fs.file_data(ino) == m0.fs.file_data(ino));
                        }
                    }
                }
            } else {
                proof {
                    lemma_same_slots(&s1, self);
                    lemma_same_tree_trans(old(self), &s1, self);
                    assert forall|j: FileSystemID, ino: INodeNum| #[trigger] self.data_of(j, ino) == old(self).data_of(j, ino) by {
                        assert(s1.data_of(j, ino) == old(self).data_of(j, ino));
                    }
                }
            }
        }
        proof {
            assert(self.open_files == s_end.open_files);
            assert forall|k: FileDescriptor| #[trigger] self.entry((ProcessFileDescriptor { pid, fd: k })) is None by {
                assert(s_end.entry((ProcessFileDescriptor { pid, fd: k })) is None);
            }
            assert forall|g: ProcessFileDescriptor| g.pid != pid implies #[trigger] self.entry(g) == old(self).entry(g) by {
                assert(s_end.entry(g) == old(self).entry(g));
            }
        }
    }
}

} // verus!
