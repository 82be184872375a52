//! An in-memory file system.
use crate::bytes::bytes_eq;
use crate::vfs::{
    raw_listing, read_count, read_range, truncate_to, write_at, Error, FileInfo, FileSystem, INodeNum, INodeType,
    RawDirEntry, Result,
};
use vstd::prelude::*;

verus! {

/// A directory entry of the in-memory file system.
pub struct TempDirEntry {
    pub name: Vec<u8>,
    pub inode: INodeNum,
}

/// An inode of the in-memory file system.
pub enum TempNode {
    /// An unused inode number
    Free,
    File { data: Vec<u8>, nlink: u32 },
    Directory { entries: Vec<TempDirEntry>, parent: INodeNum },
    Link { target: Vec<u8> },
}

/// An in-memory file system. Inode numbers index `nodes`; inode 0 is the root
/// directory.
pub struct TempFS {
    pub nodes: Vec<TempNode>,
}

/// The number of bytes a read of `len` bytes from `off` gets from `size` bytes.
fn count_for_read(size: usize, offset: u64, len: usize) -> (r: usize)
    ensures
        r == read_count(size as int, offset as int, len as int),
{
    if offset >= size as u64 {
        0
    } else {
        let rest = size - offset as usize;
        if rest < len {
            rest
        } else {
            len
        }
    }
}

impl TempFS {
    /// An empty file system: just the root directory.
    pub fn new() -> (r: TempFS)
        ensures
            r.fs_inv(),
            r.nodes@.len() == 1,
            r.nodes@[0] matches TempNode::Directory { entries, parent } && entries@.len() == 0 && parent == 0,
    {
        let mut nodes = Vec::new();
        nodes.push(TempNode::Directory { entries: Vec::new(), parent: 0 });
        TempFS { nodes }
    }

    /// The index of the entry called `name` in directory `dir`, if any.
    fn find_entry(entries: &Vec<TempDirEntry>, name: &[u8]) -> (r: Option<usize>)
        ensures
            match r {
                Some(i) => i < entries@.len() && entries@[i as int].name@ == name@ && forall|j: int| 0 <= j < i ==> #[trigger] entries@[j].name@
                    != name@,
                None => forall|i: int| 0 <= i < entries@.len() ==> #[trigger] entries@[i].name@ != name@,
            },
    {
        let mut i: usize = 0;
        while i < entries.len()
            invariant
                i <= entries@.len(),
                forall|j: int| 0 <= j < i ==> #[trigger] entries@[j].name@ != name@,
            decreases entries@.len() - i,
        {
            if bytes_eq(entries[i].name.as_slice(), name) {
                return Some(i);
            }
            i = i + 1;
        }
        None
    }

    /// The inode that entry `name` of directory `dir` names (the first entry
    /// of that name).
    pub fn lookup(&self, dir: INodeNum, name: &[u8]) -> (r: Result<INodeNum>)
        requires
            self.fs_inv(),
        ensures
            (dir as int) >= self.nodes@.len() ==> r matches Err(Error::NotFound),
            (dir as int) < self.nodes@.len() ==> match self.nodes@[dir as int] {
                TempNode::Directory { entries, .. } => match r {
                    Ok(ino) => exists|i: int|
                        0 <= i < entries@.len() && #[trigger] entries@[i].name@ == name@ && entries@[i].inode == ino && forall|j: int|
                            0 <= j < i ==> entries@[j].name@ != name@,
                    Err(e) => e is NotFound && forall|i: int| 0 <= i < entries@.len() ==> #[trigger] entries@[i].name@ != name@,
                },
                TempNode::Free => r matches Err(Error::NotFound),
                _ => r matches Err(Error::NotDirectory),
            },
    {
        if dir as usize >= self.nodes.len() {
            return Err(Error::NotFound);
        }
        match &self.nodes[dir as usize] {
            TempNode::Directory { entries, .. } => match Self::find_entry(entries, name) {
                Some(i) => Ok(entries[i].inode),
                None => Err(Error::NotFound),
            },
            TempNode::Free => Err(Error::NotFound),
            _ => Err(Error::NotDirectory),
        }
    }

    /// Adds a new inode `node` as entry `name` of directory `parent`.
    fn add_node(&mut self, parent: INodeNum, name: &[u8], node: TempNode) -> (r: Result<INodeNum>)
        requires
            old(self).fs_inv(),
            !(node is Free),
        ensures
            final(self).fs_inv(),
            match r {
                Ok(ino) => ino == old(self).nodes@.len() && final(self).nodes@.len() == old(self).nodes@.len() + 1
                    && final(self).nodes@[ino as int] == node && forall|i: int|
                    0 <= i < old(self).nodes@.len() && i != parent ==> #[trigger] final(self).nodes@[i]
                        == old(self).nodes@[i],
                Err(e) => *final(self) == *old(self) && add_refused(old(self).nodes@, parent, name@, e),
            },
            r is Ok ==> entry_added(old(self).nodes@, final(self).nodes@, parent, name@, old(self).nodes@.len() as INodeNum),
            r is Err <==> add_refusal(old(self).nodes@, parent, name@) is Some,
    {
        if parent as usize >= self.nodes.len() {
            return Err(Error::NotFound);
        }
        if self.nodes.len() >= u32::MAX as usize {
            return Err(Error::NoSpace);
        }
        let p = parent as usize;
        match &self.nodes[p] {
            TempNode::Directory { entries, .. } => {
                if Self::find_entry(entries, name).is_some() {
                    return Err(Error::Exists);
                }
            },
            TempNode::Free => return Err(Error::NotFound),
            _ => return Err(Error::NotDirectory),
        }
        let ino = self.nodes.len() as INodeNum;
        let mut dir = TempNode::Free;
        self.nodes.set_and_swap(p, &mut dir);
        let dir = match dir {
            TempNode::Directory { mut entries, parent: pp } => {
                entries.push(TempDirEntry { name: vstd::slice::slice_to_vec(name), inode: ino });
                TempNode::Directory { entries, parent: pp }
            },
            other => other,
        };
        self.nodes.set(p, dir);
        self.nodes.push(node);
        Ok(ino)
    }

    /// Removes entry `name` from directory `parent`; `want_dir` says whether it
    /// must name a directory (which must then be empty) or must not.
    fn remove_entry(&mut self, parent: INodeNum, name: &[u8], want_dir: bool) -> (r: Result<()>)
        requires
            old(self).fs_inv(),
        ensures
            final(self).fs_inv(),
            final(self).nodes@.len() == old(self).nodes@.len(),
            forall|i: int|
                0 <= i < old(self).nodes@.len() && i != parent ==> #[trigger] final(self).nodes@[i] == old(self).nodes@[i],
            (old(self).nodes@[parent as int] is Directory ==> final(self).nodes@[parent as int] is Directory),
            !(old(self).nodes@[parent as int] is Directory) ==> final(self).nodes@[parent as int] == old(self).nodes@[parent as int],
            entry_removed(*old(self), *final(self), parent, name@, want_dir, r),
    {
        if parent as usize >= self.nodes.len() {
            return Err(Error::NotFound);
        }
        let p = parent as usize;
        let idx = match &self.nodes[p] {
            TempNode::Directory { entries, .. } => match Self::find_entry(entries, name) {
                Some(i) => {
                    proof {
                        lemma_first_entry_unique(entries@, name@, i as int);
                    }
                    i
                },
                None => return Err(Error::NotFound),
            },
            TempNode::Free => return Err(Error::NotFound),
            _ => return Err(Error::NotDirectory),
        };
        let target = match &self.nodes[p] {
            TempNode::Directory { entries, .. } => entries[idx].inode,
            _ => 0,
        };
        if target as usize >= self.nodes.len() {
            return Err(Error::NotFound);
        }
        match &self.nodes[target as usize] {
            TempNode::Directory { entries, .. } => {
                if !want_dir {
                    return Err(Error::IsDirectory);
                }
                if entries.len() > 0 {
                    return Err(Error::NotEmpty);
                }
            },
            _ => {
                if want_dir {
                    return Err(Error::NotDirectory);
                }
            },
        }
        let mut dir = TempNode::Free;
        self.nodes.set_and_swap(p, &mut dir);
        let dir = match dir {
            TempNode::Directory { mut entries, parent: pp } => {
                if idx < entries.len() {
                    entries.remove(idx);
                }
                TempNode::Directory { entries, parent: pp }
            },
            other => other,
        };
        self.nodes.set(p, dir);
        Ok(())
    }
}

/// Whether directory entries `entries` hold one called `name`.
pub open spec fn has_entry(entries: Seq<TempDirEntry>, name: Seq<u8>) -> bool {
    exists|i: int| 0 <= i < entries.len() && #[trigger] entries[i].name@ == name
}

/// Why an entry `name` cannot be added to directory `parent`, if it cannot:
/// no such inode, no room for another inode, not a directory, or the name is
/// taken.
pub open spec fn add_refusal(nodes: Seq<TempNode>, parent: INodeNum, name: Seq<u8>) -> Option<Error> {
    if parent as int >= nodes.len() {
        Some(Error::NotFound)
    } else if nodes.len() >= u32::MAX {
        Some(Error::NoSpace)
    } else {
        match nodes[parent as int] {
            TempNode::Directory { entries, .. } => if has_entry(entries@, name) {
                Some(Error::Exists)
            } else {
                None
            },
            TempNode::Free => Some(Error::NotFound),
            _ => Some(Error::NotDirectory),
        }
    }
}

/// Whether `e` is the error `add_refusal` gives.
pub open spec fn add_refused(nodes: Seq<TempNode>, parent: INodeNum, name: Seq<u8>, e: Error) -> bool {
    add_refusal(nodes, parent, name) matches Some(x) && error_kind_eq(x, e)
}

/// Whether two errors are the same variant (for the variants without data).
pub open spec fn error_kind_eq(a: Error, b: Error) -> bool {
    match (a, b) {
        (Error::NotFound, Error::NotFound) => true,
        (Error::NoSpace, Error::NoSpace) => true,
        (Error::Exists, Error::Exists) => true,
        (Error::NotDirectory, Error::NotDirectory) => true,
        (Error::IsDirectory, Error::IsDirectory) => true,
        (Error::NotEmpty, Error::NotEmpty) => true,
        _ => false,
    }
}

/// Whether directory `parent` of `after` is that of `before` with entry
/// (`name`, `ino`) added at the end.
pub open spec fn entry_added(before: Seq<TempNode>, after: Seq<TempNode>, parent: INodeNum, name: Seq<u8>, ino: INodeNum) -> bool {
    &&& (parent as int) < before.len()
    &&& (parent as int) < after.len()
    &&& before[parent as int] matches TempNode::Directory { entries: e0, parent: p0 }
    &&& after[parent as int] matches TempNode::Directory { entries: e1, parent: p1 }
    &&& p1 == p0
    &&& e1@.len() == e0@.len() + 1
    &&& forall|j: int| 0 <= j < e0@.len() ==> #[trigger] e1@[j] == e0@[j]
    &&& e1@[e0@.len() as int].name@ == name
    &&& e1@[e0@.len() as int].inode == ino
}

/// What adding an inode as entry `name` of `parent` did, given its result `r`:
/// on success the new inode is the next number and the entry is listed last
/// in `parent`, other inodes unchanged; it fails exactly where
/// `add_refusal` says, with that error, changing nothing.
pub open spec fn node_added(before: TempFS, after: TempFS, parent: INodeNum, name: Seq<u8>, r: Result<INodeNum>) -> bool {
    &&& r is Err <==> add_refusal(before.nodes@, parent, name) is Some
    &&& r matches Err(e) ==> after == before && add_refused(before.nodes@, parent, name, e)
    &&& r matches Ok(ino) ==> {
        &&& ino == before.nodes@.len()
        &&& after.nodes@.len() == before.nodes@.len() + 1
        &&& entry_added(before.nodes@, after.nodes@, parent, name, ino)
        &&& forall|i: int| 0 <= i < before.nodes@.len() && i != parent ==> #[trigger] after.nodes@[i] == before.nodes@[i]
    }
}

/// Whether entry `i` is the first of `entries` called `name`.
pub open spec fn is_first_entry(entries: Seq<TempDirEntry>, name: Seq<u8>, i: int) -> bool {
    &&& 0 <= i < entries.len()
    &&& entries[i].name@ == name
    &&& forall|j: int| 0 <= j < i ==> #[trigger] entries[j].name@ != name
}

/// The index of the first entry of `entries` called `name`, if any.
pub open spec fn first_entry(entries: Seq<TempDirEntry>, name: Seq<u8>) -> Option<int> {
    if exists|i: int| is_first_entry(entries, name, i) {
        Some(choose|i: int| is_first_entry(entries, name, i))
    } else {
        None
    }
}

/// The first entry called `name` is the one `first_entry` picks.
pub proof fn lemma_first_entry_unique(entries: Seq<TempDirEntry>, name: Seq<u8>, i: int)
    requires
        is_first_entry(entries, name, i),
    ensures
        first_entry(entries, name) == Some(i),
{
    let k = choose|k: int| is_first_entry(entries, name, k);
    assert(is_first_entry(entries, name, k));
    if k < i {
        assert(entries[k].name@ != name);
    } else if k > i {
        assert(entries[i].name@ != name);
    }
}

/// Why entry `name` of directory `parent` cannot be removed, if it cannot:
/// no such directory or entry, a directory where `want_dir` is false, a
/// non-directory or a directory with entries where it is true.
pub open spec fn remove_refusal(nodes: Seq<TempNode>, parent: INodeNum, name: Seq<u8>, want_dir: bool) -> Option<Error> {
    if parent as int >= nodes.len() {
        Some(Error::NotFound)
    } else {
        match nodes[parent as int] {
            TempNode::Directory { entries, .. } => match first_entry(entries@, name) {
                None => Some(Error::NotFound),
                Some(i) => {
                    let target = entries@[i].inode;
                    if target as int >= nodes.len() {
                        Some(Error::NotFound)
                    } else {
                        match nodes[target as int] {
                            TempNode::Directory { entries: te, .. } => if !want_dir {
                                Some(Error::IsDirectory)
                            } else if te@.len() > 0 {
                                Some(Error::NotEmpty)
                            } else {
                                None
                            },
                            _ => if want_dir {
                                Some(Error::NotDirectory)
                            } else {
                                None
                            },
                        }
                    }
                },
            },
            TempNode::Free => Some(Error::NotFound),
            _ => Some(Error::NotDirectory),
        }
    }
}

/// What removing entry `name` of `parent` did, given its result `r`: it
/// fails exactly where `remove_refusal` says, with that error, changing
/// nothing; else the first entry called `name` leaves `parent`, whose other
/// entries keep their order.
pub open spec fn entry_removed(before: TempFS, after: TempFS, parent: INodeNum, name: Seq<u8>, want_dir: bool, r: Result<()>) -> bool {
    &&& r is Err <==> remove_refusal(before.nodes@, parent, name, want_dir) is Some
    &&& r matches Err(e) ==> after == before && (remove_refusal(before.nodes@, parent, name, want_dir) matches Some(x)
        && error_kind_eq(x, e))
    &&& r is Ok ==> {
        &&& before.nodes@[parent as int] matches TempNode::Directory { entries: e0, parent: p0 }
        &&& after.nodes@[parent as int] matches TempNode::Directory { entries: e1, parent: p1 }
        &&& p1 == p0
        &&& first_entry(e0@, name) matches Some(i) && e1@ == e0@.remove(i)
    }
}

/// Why `source` cannot be listed as `name` in `parent`, if it cannot: no
/// such inodes, `source` a directory, `parent` no directory, or the name
/// taken.
pub open spec fn link_refusal(nodes: Seq<TempNode>, source: INodeNum, parent: INodeNum, name: Seq<u8>) -> Option<Error> {
    if source as int >= nodes.len() || parent as int >= nodes.len() {
        Some(Error::NotFound)
    } else if nodes[source as int] is Directory {
        Some(Error::IsDirectory)
    } else if nodes[source as int] is Free {
        Some(Error::NotFound)
    } else {
        match nodes[parent as int] {
            TempNode::Directory { entries, .. } => if has_entry(entries@, name) {
                Some(Error::Exists)
            } else {
                None
            },
            TempNode::Free => Some(Error::NotFound),
            _ => Some(Error::NotDirectory),
        }
    }
}

/// The error for using `file` as a regular file when it is none: no such
/// inode, a directory, or a symbolic link (an I/O error).
pub open spec fn nonfile_error(nodes: Seq<TempNode>, file: INodeNum, e: Error) -> bool {
    if file as int >= nodes.len() {
        e is NotFound
    } else {
        match nodes[file as int] {
            TempNode::Directory { .. } => e is IsDirectory,
            TempNode::Link { .. } => e is IO,
            _ => e is NotFound,
        }
    }
}

/// The type that a directory entry shows for inode `ino`.
pub open spec fn listed_kind(nodes: Seq<TempNode>, ino: INodeNum) -> INodeType {
    if (ino as int) < nodes.len() {
        match nodes[ino as int] {
            TempNode::Directory { .. } => INodeType::Directory,
            TempNode::Link { .. } => INodeType::Link,
            _ => INodeType::File,
        }
    } else {
        INodeType::File
    }
}

impl FileSystem for TempFS {
    open spec fn fs_inv(&self) -> bool {
        &&& 1 <= self.nodes@.len() <= u32::MAX
        &&& self.nodes@[0] is Directory
    }

    open spec fn file_data(&self, ino: INodeNum) -> Option<Seq<u8>> {
        if (ino as int) < self.nodes@.len() {
            match self.nodes@[ino as int] {
                TempNode::File { data, .. } => Some(data@),
                _ => None,
            }
        } else {
            None
        }
    }

    open spec fn inode_kind(&self, ino: INodeNum) -> Option<INodeType> {
        if (ino as int) < self.nodes@.len() {
            match self.nodes@[ino as int] {
                TempNode::Free => None,
                TempNode::File { .. } => Some(INodeType::File),
                TempNode::Directory { .. } => Some(INodeType::Directory),
                TempNode::Link { .. } => Some(INodeType::Link),
            }
        } else {
            None
        }
    }

    open spec fn spec_root(&self) -> INodeNum {
        0
    }

    open spec fn dir_entries(&self, dir: INodeNum) -> Option<Seq<(INodeNum, INodeType, Seq<u8>)>> {
        if (dir as int) < self.nodes@.len() {
            match self.nodes@[dir as int] {
                TempNode::Directory { entries, .. } => Some(
                    Seq::new(
                        entries@.len(),
                        |i: int| (entries@[i].inode, listed_kind(self.nodes@, entries@[i].inode), entries@[i].name@),
                    ),
                ),
                _ => None,
            }
        } else {
            None
        }
    }

    fn root(&self) -> (r: INodeNum) {
        0
    }

    /// Any inode in use can be opened.
    fn open(&mut self, inode: INodeNum) -> (r: Result<()>)
        ensures
            *final(self) == *old(self),
            r is Ok <==> (inode as int) < old(self).nodes@.len() && !(old(self).nodes@[inode as int] is Free),
            r matches Err(e) ==> e is NotFound,
    {
        if inode as usize >= self.nodes.len() {
            return Err(Error::NotFound);
        }
        match &self.nodes[inode as usize] {
            TempNode::Free => Err(Error::NotFound),
            _ => Ok(()),
        }
    }

    fn release(&mut self, inode: INodeNum)
        ensures
            *final(self) == *old(self),
    {
    }

    /// A new empty file with one link, listed last in `parent`.
    fn create(&mut self, parent: INodeNum, name: &[u8]) -> (r: Result<INodeNum>)
        ensures
            node_added(*old(self), *final(self), parent, name@, r),
            r matches Ok(ino) ==> (final(self).nodes@[ino as int] matches TempNode::File { data, nlink } && data@.len() == 0
                && nlink == 1),
    {
        self.add_node(parent, name, TempNode::File { data: Vec::new(), nlink: 1 })
    }

    /// A new empty directory, whose parent is `parent`, listed last there.
    fn mkdir(&mut self, parent: INodeNum, name: &[u8]) -> (r: Result<INodeNum>)
        ensures
            node_added(*old(self), *final(self), parent, name@, r),
            r matches Ok(ino) ==> (final(self).nodes@[ino as int] matches TempNode::Directory { entries, parent: p }
                && entries@.len() == 0 && p == parent),
    {
        self.add_node(parent, name, TempNode::Directory { entries: Vec::new(), parent })
    }

    /// Removes the first entry `name` of `parent`, which must not be a directory.
    fn unlink(&mut self, parent: INodeNum, name: &[u8]) -> (r: Result<()>)
        ensures
            entry_removed(*old(self), *final(self), parent, name@, false, r),
    {
        self.remove_entry(parent, name, false)
    }

    /// Removes the first entry `name` of `parent`, which must be an empty
    /// directory.
    fn rmdir(&mut self, parent: INodeNum, name: &[u8]) -> (r: Result<()>)
        ensures
            entry_removed(*old(self), *final(self), parent, name@, true, r),
    {
        self.remove_entry(parent, name, true)
    }

    /// The entries of the directory, in the order they were made.
    fn readdir(&mut self, dir: INodeNum) -> (r: Result<Vec<RawDirEntry>>)
        ensures
            *final(self) == *old(self),
            (dir as int) >= old(self).nodes@.len() ==> r matches Err(Error::NotFound),
            (dir as int) < old(self).nodes@.len() ==> match old(self).nodes@[dir as int] {
                TempNode::Directory { entries, .. } => r matches Ok(v) && raw_listing(v@) == Seq::new(
                    entries@.len(),
                    |i: int| (entries@[i].inode, listed_kind(old(self).nodes@, entries@[i].inode), entries@[i].name@),
                ),
                TempNode::Free => r matches Err(Error::NotFound),
                _ => r matches Err(Error::NotDirectory),
            },
    {
        if dir as usize >= self.nodes.len() {
            return Err(Error::NotFound);
        }
        match &self.nodes[dir as usize] {
            TempNode::Directory { entries, .. } => {
                let mut out: Vec<RawDirEntry> = Vec::new();
                let mut i: usize = 0;
                while i < entries.len()
                    invariant
                        i <= entries@.len(),
                        out@.len() == i,
                        (dir as int) < self.nodes@.len(),
                        self.nodes@[dir as int] matches TempNode::Directory { entries: es, .. } && es == *entries,
                        raw_listing(out@) == Seq::new(
                            i as nat,
                            |j: int| (entries@[j].inode, listed_kind(self.nodes@, entries@[j].inode), entries@[j].name@),
                        ),
                    decreases entries@.len() - i,
                {
                    let ino = entries[i].inode;
                    let kind = if (ino as usize) < self.nodes.len() {
                        match &self.nodes[ino as usize] {
                            TempNode::Directory { .. } => INodeType::Directory,
                            TempNode::Link { .. } => INodeType::Link,
                            _ => INodeType::File,
                        }
                    } else {
                        INodeType::File
                    };
                    let name = entries[i].name.clone();
                    assert(kind == listed_kind(self.nodes@, ino));
                    assert(name@ == entries@[i as int].name@);
                    let ghost name_view = name@;
                    let ghost prev = out@;
                    out.push(RawDirEntry { inode: ino, kind, name });
                    proof {
                        let target = Seq::new(
                            (i + 1) as nat,
                            |j: int| (entries@[j].inode, listed_kind(self.nodes@, entries@[j].inode), entries@[j].name@),
                        );
                        assert forall|j: int| 0 <= j < i + 1 implies #[trigger] raw_listing(out@)[j] == target[j] by {
                            if j < i {
                                assert(out@[j] == prev[j]);
                                assert(raw_listing(prev)[j] == target[j]);
                            } else {
                                assert(out@[j].name@ == name_view);
                            }
                        }
                        assert(raw_listing(out@) =~= target);
                    }
                    i = i + 1;
                }
                Ok(out)
            },
            TempNode::Free => Err(Error::NotFound),
            _ => Err(Error::NotDirectory),
        }
    }

    /// Only regular files can be read.
    fn read(&mut self, file: INodeNum, offset: u64, buf: &mut [u8]) -> (r: Result<usize>)
        ensures
            *final(self) == *old(self),
            r is Ok <==> old(self).file_data(file) is Some,
            r matches Err(e) ==> nonfile_error(old(self).nodes@, file, e),
    {
        if file as usize >= self.nodes.len() {
            return Err(Error::NotFound);
        }
        match &self.nodes[file as usize] {
            TempNode::File { data, .. } => {
                let n = count_for_read(data.len(), offset, buf.len());
                let dlen = data.len();
                let mut i: usize = 0;
                while i < n
                    invariant
                        dlen == data@.len(),
                        n > 0 ==> offset + n <= data@.len(),
                        n <= old(buf)@.len(),
                        n == read_count(data@.len() as int, offset as int, old(buf)@.len() as int),
                        i <= n,
                        buf@.len() == old(buf)@.len(),
                        forall|j: int| 0 <= j < i ==> buf@[j] == data@[offset + j],
                    decreases n - i,
                {
                    buf[i] = data[offset as usize + i];
                    i = i + 1;
                }
                assert(buf@.subrange(0, n as int) =~= read_range(data@, offset as int, n as int));
                Ok(n)
            },
            TempNode::Directory { .. } => Err(Error::IsDirectory),
            TempNode::Free => Err(Error::NotFound),
            TempNode::Link { .. } => Err(Error::IO("can't read a symbolic link".to_owned())),
        }
    }

    /// Only regular files can be written, and only up to the largest size a
    /// buffer can have.
    fn write(&mut self, file: INodeNum, offset: u64, buf: &[u8]) -> (r: Result<usize>)
        ensures
            r is Ok <==> old(self).file_data(file) is Some && offset + buf@.len() <= usize::MAX,
            r matches Err(e) ==> *final(self) == *old(self) && (old(self).file_data(file) is Some ==> e is NoSpace)
                && (old(self).file_data(file) is None ==> nonfile_error(old(self).nodes@, file, e)),
            final(self).nodes@.len() == old(self).nodes@.len(),
            forall|i: int| 0 <= i < old(self).nodes@.len() && i != file ==> #[trigger] final(self).nodes@[i] == old(self).nodes@[i],
    {
        if file as usize >= self.nodes.len() {
            return Err(Error::NotFound);
        }
        let f = file as usize;
        match &self.nodes[f] {
            TempNode::File { data, .. } => {
                if offset > (usize::MAX - buf.len()) as u64 {
                    return Err(Error::NoSpace);
                }
            },
            TempNode::Directory { .. } => return Err(Error::IsDirectory),
            TempNode::Free => return Err(Error::NotFound),
            TempNode::Link { .. } => return Err(Error::IO("can't write a symbolic link".to_owned())),
        }
        let mut node = TempNode::Free;
        self.nodes.set_and_swap(f, &mut node);
        let node = match node {
            TempNode::File { mut data, nlink } => {
                write_bytes(&mut data, offset as usize, buf);
                TempNode::File { data, nlink }
            },
            other => other,
        };
        self.nodes.set(f, node);
        Ok(buf.len())
    }

    /// A file's size is its length and its links are counted; directories
    /// have size 0 and links have the length of their target, each with one
    /// link.
    fn stat(&mut self, file: INodeNum) -> (r: Result<FileInfo>)
        ensures
            *final(self) == *old(self),
            (file as int) >= old(self).nodes@.len() ==> r matches Err(Error::NotFound),
            (file as int) < old(self).nodes@.len() ==> match old(self).nodes@[file as int] {
                TempNode::File { data, nlink } => r == Ok::<FileInfo, Error>(
                    FileInfo { inode: file, size: data@.len() as u64, kind: INodeType::File, nlink },
                ),
                TempNode::Directory { .. } => r == Ok::<FileInfo, Error>(
                    FileInfo { inode: file, size: 0, kind: INodeType::Directory, nlink: 1 },
                ),
                TempNode::Link { target } => r == Ok::<FileInfo, Error>(
                    FileInfo { inode: file, size: target@.len() as u64, kind: INodeType::Link, nlink: 1 },
                ),
                TempNode::Free => r matches Err(Error::NotFound),
            },
    {
        if file as usize >= self.nodes.len() {
            return Err(Error::NotFound);
        }
        match &self.nodes[file as usize] {
            TempNode::File { data, nlink } => Ok(
                FileInfo { inode: file, size: data.len() as u64, kind: INodeType::File, nlink: *nlink },
            ),
            TempNode::Directory { .. } => Ok(FileInfo { inode: file, size: 0, kind: INodeType::Directory, nlink: 1 }),
            TempNode::Link { target } => Ok(
                FileInfo { inode: file, size: target.len() as u64, kind: INodeType::Link, nlink: 1 },
            ),
            TempNode::Free => Err(Error::NotFound),
        }
    }

    /// Lists `source` (not a directory) as `name` in `parent`; a file counts
    /// one more link (up to the largest count).
    fn link(&mut self, source: INodeNum, parent: INodeNum, name: &[u8]) -> (r: Result<()>)
        ensures
            r is Err <==> link_refusal(old(self).nodes@, source, parent, name@) is Some,
            r matches Err(e) ==> *final(self) == *old(self) && (link_refusal(old(self).nodes@, source, parent, name@) matches Some(x)
                && error_kind_eq(x, e)),
            r is Ok ==> {
                &&& final(self).nodes@.len() == old(self).nodes@.len()
                &&& entry_added(old(self).nodes@, final(self).nodes@, parent, name@, source)
                &&& forall|i: int|
                    0 <= i < old(self).nodes@.len() && i != parent && i != source ==> #[trigger] final(self).nodes@[i]
                        == old(self).nodes@[i]
                &&& match old(self).nodes@[source as int] {
                    TempNode::File { data, nlink } => final(self).nodes@[source as int] matches TempNode::File { data: d2, nlink: n2 }
                        && d2@ == data@ && n2 == (if nlink == u32::MAX { nlink } else { (nlink + 1) as u32 }),
                    other => final(self).nodes@[source as int] == other,
                }
            },
    {
        if source as usize >= self.nodes.len() || parent as usize >= self.nodes.len() {
            return Err(Error::NotFound);
        }
        match &self.nodes[source as usize] {
            TempNode::Directory { .. } => return Err(Error::IsDirectory),
            TempNode::Free => return Err(Error::NotFound),
            _ => {},
        }
        let p = parent as usize;
        match &self.nodes[p] {
            TempNode::Directory { entries, .. } => {
                if Self::find_entry(entries, name).is_some() {
                    return Err(Error::Exists);
                }
            },
            TempNode::Free => return Err(Error::NotFound),
            _ => return Err(Error::NotDirectory),
        }
        let mut dir = TempNode::Free;
        self.nodes.set_and_swap(p, &mut dir);
        let dir = match dir {
            TempNode::Directory { mut entries, parent: pp } => {
                entries.push(TempDirEntry { name: vstd::slice::slice_to_vec(name), inode: source });
                TempNode::Directory { entries, parent: pp }
            },
            other => other,
        };
        self.nodes.set(p, dir);
        let s = source as usize;
        let mut node = TempNode::Free;
        self.nodes.set_and_swap(s, &mut node);
        let node = match node {
            TempNode::File { data, nlink } => TempNode::File { data, nlink: nlink.saturating_add(1) },
            other => other,
        };
        self.nodes.set(s, node);
        Ok(())
    }

    /// A new symbolic link to `link`, listed last in `parent`.
    fn symlink(&mut self, link: &[u8], parent: INodeNum, name: &[u8]) -> (r: Result<INodeNum>)
        ensures
            node_added(*old(self), *final(self), parent, name@, r),
            r matches Ok(ino) ==> (final(self).nodes@[ino as int] matches TempNode::Link { target } && target@ == link@),
    {
        self.add_node(parent, name, TempNode::Link { target: vstd::slice::slice_to_vec(link) })
    }

    /// The target of a symbolic link.
    fn readlink(&mut self, link: INodeNum) -> (r: Result<Vec<u8>>)
        ensures
            *final(self) == *old(self),
            (link as int) >= old(self).nodes@.len() ==> r matches Err(Error::NotFound),
            (link as int) < old(self).nodes@.len() ==> match old(self).nodes@[link as int] {
                TempNode::Link { target } => r matches Ok(t) && t@ == target@,
                TempNode::Free => r matches Err(Error::NotFound),
                _ => r matches Err(Error::NotLink),
            },
    {
        if link as usize >= self.nodes.len() {
            return Err(Error::NotFound);
        }
        match &self.nodes[link as usize] {
            TempNode::Link { target } => Ok(target.clone()),
            TempNode::Free => Err(Error::NotFound),
            _ => Err(Error::NotLink),
        }
    }

    /// Only regular files can be cut or extended, and only up to the largest
    /// size a buffer can have.
    fn truncate(&mut self, file: INodeNum, size: u64) -> (r: Result<()>)
        ensures
            r is Ok <==> old(self).file_data(file) is Some && size <= usize::MAX,
            r matches Err(e) ==> *final(self) == *old(self) && (old(self).file_data(file) is Some ==> e is NoSpace)
                && (old(self).file_data(file) is None ==> nonfile_error(old(self).nodes@, file, e)),
            final(self).nodes@.len() == old(self).nodes@.len(),
            forall|i: int| 0 <= i < old(self).nodes@.len() && i != file ==> #[trigger] final(self).nodes@[i] == old(self).nodes@[i],
    {
        if file as usize >= self.nodes.len() {
            return Err(Error::NotFound);
        }
        let f = file as usize;
        match &self.nodes[f] {
            TempNode::File { .. } => {
                if size > usize::MAX as u64 {
                    return Err(Error::NoSpace);
                }
            },
            TempNode::Directory { .. } => return Err(Error::IsDirectory),
            TempNode::Free => return Err(Error::NotFound),
            TempNode::Link { .. } => return Err(Error::IO("can't truncate a symbolic link".to_owned())),
        }
        let mut node = TempNode::Free;
        self.nodes.set_and_swap(f, &mut node);
        let node = match node {
            TempNode::File { mut data, nlink } => {
                resize_bytes(&mut data, size as usize);
                TempNode::File { data, nlink }
            },
            other => other,
        };
        self.nodes.set(f, node);
        Ok(())
    }

    fn sync(&mut self) -> (r: Result<()>) {
        Ok(())
    }
}

/// Writes `buf` into `data` at `off`, zero-filling any gap past the end.
fn write_bytes(data: &mut Vec<u8>, off: usize, buf: &[u8])
    requires
        off + buf@.len() <= usize::MAX,
    ensures
        final(data)@ == write_at(old(data)@, off as int, buf@),
{
    while data.len() < off
        invariant
            forall|j: int| 0 <= j < old(data)@.len() ==> j < data@.len() && data@[j] == old(data)@[j],
            forall|j: int| old(data)@.len() <= j < data@.len() ==> data@[j] == 0u8,
            data@.len() >= old(data)@.len(),
            data@.len() <= if old(data)@.len() > off { old(data)@.len() as int } else { off as int },
        decreases off - data@.len(),
    {
        data.push(0);
    }
    let mut i: usize = 0;
    while i < buf.len()
        invariant
            off + buf@.len() <= usize::MAX,
            i <= buf@.len(),
            data@.len() >= off,
            data@.len() == if old(data)@.len() > off + i { old(data)@.len() as int } else if old(data)@.len()
                > off { if off + i > old(data)@.len() { (off + i) as int } else { old(data)@.len() as int } } else { (off + i) as int },
            forall|j: int|
                0 <= j < data@.len() ==> data@[j] == (if off <= j < off + i {
                    buf@[j - off]
                } else if j < old(data)@.len() {
                    old(data)@[j]
                } else {
                    0u8
                }),
        decreases buf@.len() - i,
    {
        if off + i < data.len() {
            data.set(off + i, buf[i]);
        } else {
            data.push(buf[i]);
        }
        i = i + 1;
    }
    assert(data@ =~= write_at(old(data)@, off as int, buf@));
}

/// Cuts or zero-extends `data` to `size` bytes.
fn resize_bytes(data: &mut Vec<u8>, size: usize)
    ensures
        final(data)@ == truncate_to(old(data)@, size as int),
{
    if data.len() > size {
        data.truncate(size);
    } else {
        while data.len() < size
            invariant
                data@.len() <= size,
                data@.len() >= old(data)@.len(),
                forall|j: int| 0 <= j < old(data)@.len() ==> data@[j] == old(data)@[j],
                forall|j: int| old(data)@.len() <= j < data@.len() ==> data@[j] == 0u8,
            decreases size - data@.len(),
        {
            data.push(0);
        }
    }
    assert(data@ =~= truncate_to(old(data)@, size as int));
}

} // verus!
