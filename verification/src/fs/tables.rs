//! The two tables behind the root file system: the mounted file systems, by
//! id, and the open files, by process file descriptor.
use crate::assoc::{
    assoc_get, distinct_keys, lemma_assoc_get_index, lemma_assoc_get_none, lemma_assoc_get_push, lemma_assoc_get_update,
    lemma_distinct_push, lemma_distinct_remove, lemma_distinct_update,
};
use crate::fs::fs_manager::{
    lemma_assoc_get_remove_unique, same_files, FileSystemID, FileSystemManager, MAX_MOUNT_POINTS, MAX_OPEN_FILES,
};
use crate::fs::{FileDescriptor, Pid, ProcessFileDescriptor};
use crate::vfs::{Error, FileSystem, INodeNum, Result};
use vstd::prelude::*;

verus! {

/// Metadata for an open file.
#[derive(Clone, Copy, Debug, PartialEq, Eq, Structural)]
pub enum OpenFile {
    /// A regular file or a directory, on file system `fs`, read and written at `offset`
    Regular { fs: FileSystemID, offset: u64, is_dir: bool },
    /// Standard output
    StdOut,
    /// `/dev/null` (discards writes, reads nothing)
    Null,
}

/// Whether `o` is a slot that holds a well-formed manager, or none.
pub open spec fn slot_wf<F: FileSystem>(o: Option<FileSystemManager<F>>) -> bool {
    match o {
        Some(m) => m.wf(),
        None => true,
    }
}

/// The mounted file systems, by id.
pub struct FileSystemList<F> {
    pub slots: Vec<Option<FileSystemManager<F>>>,
}

impl<F: FileSystem> FileSystemList<F> {
    /// One slot per possible id; each file system in it is well formed.
    pub open spec fn wf(&self) -> bool {
        &&& self.slots@.len() == MAX_MOUNT_POINTS as int
        &&& forall|i: int| 0 <= i < self.slots@.len() ==> slot_wf(#[trigger] self.slots@[i])
    }

    /// The file system with id `id`.
    pub open spec fn slot(&self, id: FileSystemID) -> Option<FileSystemManager<F>> {
        if (id as int) < self.slots@.len() {
            self.slots@[id as int]
        } else {
            None
        }
    }

    /// A list with no file system.
    pub fn new() -> (r: Self)
        ensures
            r.wf(),
            forall|id: FileSystemID| #[trigger] r.slot(id) is None,
    {
        let mut slots: Vec<Option<FileSystemManager<F>>> = Vec::new();
        while slots.len() < MAX_MOUNT_POINTS as usize
            invariant
                slots@.len() <= MAX_MOUNT_POINTS as int,
                forall|i: int| 0 <= i < slots@.len() ==> #[trigger] slots@[i] is None,
            decreases MAX_MOUNT_POINTS as int - slots@.len(),
        {
            slots.push(None);
        }
        FileSystemList { slots }
    }

    /// The file system with id `id`.
    pub fn get(&self, id: FileSystemID) -> (r: Option<&FileSystemManager<F>>)
        ensures
            match r {
                Some(m) => self.slot(id) == Some(*m),
                None => self.slot(id) is None,
            },
    {
        if (id as usize) < self.slots.len() {
            match &self.slots[id as usize] {
                Some(m) => Some(m),
                None => None,
            }
        } else {
            None
        }
    }

    /// Take the file system with id `id` out of its slot.
    pub fn take(&mut self, id: FileSystemID) -> (r: Option<FileSystemManager<F>>)
        requires
            old(self).wf(),
        ensures
            final(self).wf(),
            r == old(self).slot(id),
            final(self).slot(id) is None,
            forall|j: FileSystemID| j != id ==> #[trigger] final(self).slot(j) == old(self).slot(j),
    {
        if (id as usize) < self.slots.len() {
            let mut m: Option<FileSystemManager<F>> = None;
            self.slots.set_and_swap(id as usize, &mut m);
            proof {
                assert forall|i: int| 0 <= i < self.slots@.len() implies slot_wf(#[trigger] self.slots@[i]) by {
                    if i != id as int {
                        assert(self.slots@[i] == old(self).slots@[i]);
                    }
                }
            }
            m
        } else {
            None
        }
    }

    /// Put `m` into slot `id`.
    pub fn put(&mut self, id: FileSystemID, m: FileSystemManager<F>)
        requires
            old(self).wf(),
            m.wf(),
            id < MAX_MOUNT_POINTS,
        ensures
            final(self).wf(),
            final(self).slot(id) == Some(m),
            forall|j: FileSystemID| j != id ==> #[trigger] final(self).slot(j) == old(self).slot(j),
    {
        self.slots.set(id as usize, Some(m));
        proof {
            assert forall|i: int| 0 <= i < self.slots@.len() implies slot_wf(#[trigger] self.slots@[i]) by {
                if i != id as int {
                    assert(self.slots@[i] == old(self).slots@[i]);
                }
            }
        }
    }

    /// Remove the file system with id `id`.
    pub fn remove(&mut self, id: FileSystemID)
        requires
            old(self).wf(),
        ensures
            final(self).wf(),
            final(self).slot(id) is None,
            forall|j: FileSystemID| j != id ==> #[trigger] final(self).slot(j) == old(self).slot(j),
    {
        let _ = self.take(id);
    }

    /// Add file system `fs`, mounted at `mount_point`, in the first free slot;
    /// `NoSpace` when every slot is taken.
    pub fn add(&mut self, fs: F, mount_point: Option<(FileSystemID, INodeNum)>) -> (r: Result<FileSystemID>)
        requires
            old(self).wf(),
            fs.fs_inv(),
        ensures
            final(self).wf(),
            match r {
                Ok(id) => {
                    &&& id < MAX_MOUNT_POINTS
                    &&& old(self).slot(id) is None
                    &&& forall|j: FileSystemID| j < id ==> (#[trigger] old(self).slot(j)) is Some
                    &&& final(self).slot(id) matches Some(m) && same_files(&m.fs, &fs) && m.mount_point == mount_point
                        && m.open_files@.len() == 0 && m.mount_count == 0
                    &&& forall|j: FileSystemID| j != id ==> #[trigger] final(self).slot(j) == old(self).slot(j)
                },
                Err(e) => {
                    &&& e is NoSpace
                    &&& forall|j: FileSystemID| j < MAX_MOUNT_POINTS ==> (#[trigger] old(self).slot(j)) is Some
                    &&& forall|j: FileSystemID| #[trigger] final(self).slot(j) == old(self).slot(j)
                },
            },
    {
        let mut id: usize = 0;
        while id < MAX_MOUNT_POINTS as usize
            invariant
                self.wf(),
                fs.fs_inv(),
                self.slots@ == old(self).slots@,
                id <= MAX_MOUNT_POINTS as usize,
                forall|j: FileSystemID| (j as int) < (id as int) ==> (#[trigger] old(self).slot(j)) is Some,
            decreases MAX_MOUNT_POINTS as usize - id,
        {
            if self.slots[id].is_none() {
                let m = FileSystemManager::new(fs, mount_point);
                self.put(id as FileSystemID, m);
                return Ok(id as FileSystemID);
            }
            id = id + 1;
        }
        Err(Error::NoSpace)
    }
}

/// The open files, by process file descriptor.
pub struct OpenFileTable {
    pub entries: Vec<(ProcessFileDescriptor, OpenFile)>,
}

impl OpenFileTable {
    /// No descriptor occurs twice.
    pub open spec fn wf(&self) -> bool {
        distinct_keys(self.entries@)
    }

    /// What is open as `fd`.
    pub open spec fn get(&self, fd: ProcessFileDescriptor) -> Option<OpenFile> {
        assoc_get(self.entries@, fd)
    }

    /// An empty table.
    pub fn new() -> (r: Self)
        ensures
            r.wf(),
            forall|fd: ProcessFileDescriptor| #[trigger] r.get(fd) is None,
    {
        OpenFileTable { entries: Vec::new() }
    }

    fn find(&self, fd: ProcessFileDescriptor) -> (r: Option<usize>)
        ensures
            match r {
                Some(i) => i < self.entries@.len() && self.entries@[i as int].0 == fd && forall|j: int|
                    0 <= j < i ==> self.entries@[j].0 != fd,
                None => forall|j: int| 0 <= j < self.entries@.len() ==> self.entries@[j].0 != fd,
            },
    {
        let mut i: usize = 0;
        while i < self.entries.len()
            invariant
                i <= self.entries@.len(),
                forall|j: int| 0 <= j < i ==> self.entries@[j].0 != fd,
            decreases self.entries@.len() - i,
        {
            if self.entries[i].0 == fd {
                return Some(i);
            }
            i = i + 1;
        }
        None
    }

    /// What is open as `fd`.
    pub fn lookup(&self, fd: ProcessFileDescriptor) -> (r: Option<OpenFile>)
        ensures
            r == self.get(fd),
    {
        match self.find(fd) {
            Some(i) => {
                proof { lemma_assoc_get_index(self.entries@, fd, i as int); }
                Some(self.entries[i].1)
            },
            None => {
                proof { lemma_assoc_get_none(self.entries@, fd); }
                None
            },
        }
    }

    /// Record `info` as open under `fd`.
    pub fn set(&mut self, fd: ProcessFileDescriptor, info: OpenFile)
        requires
            old(self).wf(),
        ensures
            final(self).wf(),
            final(self).get(fd) == Some(info),
            forall|f: ProcessFileDescriptor| f != fd ==> #[trigger] final(self).get(f) == old(self).get(f),
    {
        let ghost s = self.entries@;
        match self.find(fd) {
            Some(i) => {
                self.entries.set(i, (fd, info));
                proof {
                    assert(self.entries@ == s.update(i as int, (s[i as int].0, info)));
                    lemma_distinct_update(s, i as int, info);
                    assert forall|f: ProcessFileDescriptor| #[trigger] assoc_get(self.entries@, f) == (if f == fd {
                        Some(info)
                    } else {
                        assoc_get(s, f)
                    }) by {
                        lemma_assoc_get_update(s, i as int, info, f);
                    }
                }
            },
            None => {
                self.entries.push((fd, info));
                proof {
                    lemma_distinct_push(s, (fd, info));
                    lemma_assoc_get_none(s, fd);
                    assert forall|f: ProcessFileDescriptor| #[trigger] assoc_get(self.entries@, f) == (match assoc_get(s, f) {
                        Some(v) => Some(v),
                        None => if f == fd { Some(info) } else { None },
                    }) by {
                        lemma_assoc_get_push(s, (fd, info), f);
                    }
                }
            },
        }
    }

    /// Forget `fd`.
    pub fn remove(&mut self, fd: ProcessFileDescriptor)
        requires
            old(self).wf(),
        ensures
            final(self).wf(),
            final(self).get(fd) is None,
            forall|f: ProcessFileDescriptor| f != fd ==> #[trigger] final(self).get(f) == old(self).get(f),
    {
        let ghost s = self.entries@;
        match self.find(fd) {
            Some(i) => {
                self.entries.remove(i);
                proof {
                    lemma_distinct_remove(s, i as int);
                    lemma_assoc_get_remove_unique(s, i as int);
                }
            },
            None => {
                proof { lemma_assoc_get_none(s, fd); }
            },
        }
    }

    /// Open `info` under the lowest free descriptor of process `pid`;
    /// `TooManyOpenFiles` when all of them are taken.
    pub fn new_fd(&mut self, pid: Pid, info: OpenFile) -> (r: Result<ProcessFileDescriptor>)
        requires
            old(self).wf(),
        ensures
            final(self).wf(),
            match r {
                Ok(f) => {
                    &&& f.pid == pid
                    &&& 0 <= f.fd < MAX_OPEN_FILES
                    &&& old(self).get(f) is None
                    &&& forall|k: FileDescriptor| 0 <= k < f.fd ==> (#[trigger] old(self).get(
                        (ProcessFileDescriptor { pid, fd: k }),
                    )) is Some
                    &&& final(self).get(f) == Some(info)
                    &&& forall|g: ProcessFileDescriptor| g != f ==> #[trigger] final(self).get(g) == old(self).get(g)
                },
                Err(e) => {
                    &&& e is TooManyOpenFiles
                    &&& forall|k: FileDescriptor| 0 <= k < MAX_OPEN_FILES ==> (#[trigger] old(self).get(
                        (ProcessFileDescriptor { pid, fd: k }),
                    )) is Some
                    &&& *final(self) == *old(self)
                },
            },
    {
        let limit: FileDescriptor = 1024;
        assert(limit == MAX_OPEN_FILES);
        let mut k: FileDescriptor = 0;
        while k < limit
            invariant
                limit == MAX_OPEN_FILES,
                0 <= k <= MAX_OPEN_FILES,
                self.wf(),
                *self == *old(self),
                forall|j: FileDescriptor| 0 <= j < k ==> (#[trigger] old(self).get((ProcessFileDescriptor { pid, fd: j }))) is Some,
            decreases MAX_OPEN_FILES - k,
        {
            let fd = ProcessFileDescriptor { pid, fd: k };
            if self.lookup(fd).is_none() {
                self.set(fd, info);
                return Ok(fd);
            }
            k = k + 1;
        }
        Err(Error::TooManyOpenFiles)
    }

    /// The descriptors that process `pid` has open.
    pub fn fds_of(&self, pid: Pid) -> (r: Vec<FileDescriptor>)
        requires
            self.wf(),
        ensures
            forall|k: FileDescriptor| #[trigger] r@.contains(k) <==> self.get((ProcessFileDescriptor { pid, fd: k })) is Some,
    {
        let mut out: Vec<FileDescriptor> = Vec::new();
        let mut i: usize = 0;
        while i < self.entries.len()
            invariant
                i <= self.entries@.len(),
                self.wf(),
                forall|k: FileDescriptor| #[trigger] out@.contains(k) <==> exists|j: int|
                    0 <= j < i && self.entries@[j].0 == (ProcessFileDescriptor { pid, fd: k }),
            decreases self.entries@.len() - i,
        {
            let e = self.entries[i].0;
            let ghost old_out = out@;
            if e.pid == pid {
                out.push(e.fd);
                proof {
                    assert forall|k: FileDescriptor| #[trigger] out@.contains(k) <==> exists|j: int|
                        0 <= j < i + 1 && self.entries@[j].0 == (ProcessFileDescriptor { pid, fd: k }) by {
                        if out@.contains(k) && k != e.fd {
                            let t = choose|t: int| 0 <= t < out@.len() && out@[t] == k;
                            assert(old_out[t] == k);
                            assert(old_out.contains(k));
                        }
                        if k == e.fd {
                            assert(out@[out@.len() - 1] == k);
                        }
                        if exists|j: int| 0 <= j < i + 1 && self.entries@[j].0 == (ProcessFileDescriptor { pid, fd: k }) {
                            let j = choose|j: int| 0 <= j < i + 1 && self.entries@[j].0 == (ProcessFileDescriptor { pid, fd: k });
                            if j < i {
                                assert(old_out.contains(k));
                                let t = choose|t: int| 0 <= t < old_out.len() && old_out[t] == k;
                                assert(out@[t] == k);
                            }
                        }
                    }
                }
            } else {
                proof {
                    assert forall|k: FileDescriptor| #[trigger] out@.contains(k) <==> exists|j: int|
                        0 <= j < i + 1 && self.entries@[j].0 == (ProcessFileDescriptor { pid, fd: k }) by {
                        if exists|j: int| 0 <= j < i + 1 && self.entries@[j].0 == (ProcessFileDescriptor { pid, fd: k }) {
                            let j = choose|j: int| 0 <= j < i + 1 && self.entries@[j].0 == (ProcessFileDescriptor { pid, fd: k });
                            assert(j < i);
                        }
                    }
                }
            }
            i = i + 1;
        }
        proof {
            assert forall|k: FileDescriptor| #[trigger] out@.contains(k) <==> self.get((ProcessFileDescriptor { pid, fd: k })) is Some by {
                crate::assoc::lemma_assoc_get_some(self.entries@, ProcessFileDescriptor { pid, fd: k });
            }
        }
        out
    }
}

} // verus!
