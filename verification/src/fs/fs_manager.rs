//! The kernel's table of mounted file systems and open files.
use crate::assoc::{
    assoc_get, distinct_keys, lemma_assoc_get_index, lemma_assoc_get_none, lemma_assoc_get_push, lemma_assoc_get_update,
    lemma_distinct_push, lemma_distinct_remove, lemma_distinct_update,
};
use crate::bytes::bytes_eq;
use crate::fs::{FileDescriptor, Pid, ProcessControlBlock, ProcessFileDescriptor};
use crate::vfs::{raw_listing, Error, FileInfo, FileSystem, INodeNum, INodeType, RawDirEntry, Result};
use vstd::prelude::*;

verus! {

/// Possible places to seek from.
#[derive(Clone, Copy, Debug, PartialEq, Eq, Structural)]
pub enum SeekFrom {
    Start,
    Current,
    End,
}

/// Mode for opening a file.
#[derive(Clone, Copy, Debug, PartialEq, Eq, Structural)]
pub enum Mode {
    /// Open existing file for read/write access
    ReadWrite,
    /// Open or create file for read/write access
    CreateReadWrite,
}

/// Maximum number of simultaneously open files for a process.
pub const MAX_OPEN_FILES: u16 = 1024;
/// Maximum number of simultaneous mounts.
pub const MAX_MOUNT_POINTS: u16 = 256;
/// Maximum number of nested symbolic links.
pub const MAX_LEVEL_OF_LINKS: usize = 32;

/// Identifies a mounted file system.
pub type FileSystemID = u16;

/// A cached directory entry.
pub struct OwnedDirEntry {
    pub kind: INodeType,
    pub inode: INodeNum,
    pub name: Vec<u8>,
}

/// The size of the fixed part of a directory record handed to user programs:
/// offset (8 bytes), inode (4), record length (2), type (1), then padding.
pub const DIRENT_HEADER_SIZE: usize = 16;
/// Where the name starts in a directory record.
pub const DIRENT_NAME_OFFSET: usize = 15;
/// Directory records are aligned to this many bytes.
pub const DIRENT_ALIGN: usize = 8;

/// The length of the directory record of a name of `name_len` bytes: the fixed
/// part, the name and its NUL, rounded up to the alignment.
pub open spec fn dirent_len(name_len: int) -> int {
    let required = DIRENT_HEADER_SIZE + name_len + 1;
    ((required + DIRENT_ALIGN - 1) / (DIRENT_ALIGN as int)) * (DIRENT_ALIGN as int)
}

/// The fixed part of the record of an entry with id `off`, inode `inode` and
/// type number `kind` whose record is `reclen` bytes long.
pub open spec fn dirent_header(off: u64, inode: INodeNum, reclen: u16, kind: u8) -> Seq<u8> {
    crate::bytes::u32_le_bytes((off % 0x1_0000_0000) as u32) + crate::bytes::u32_le_bytes((off / 0x1_0000_0000) as u32)
        + crate::bytes::u32_le_bytes(inode) + crate::bytes::u16_le_bytes(reclen) + seq![kind]
}

/// The type number of an inode type.
pub open spec fn kind_number(t: INodeType) -> u8 {
    match t {
        INodeType::File => 1u8,
        INodeType::Directory => 2u8,
        INodeType::Link => 3u8,
    }
}

/// Whether `out` holds, at `pos`, the record of entry `id` with inode `inode`,
/// type `kind` and name `name`.
pub open spec fn record_at(out: Seq<u8>, pos: int, id: u64, inode: INodeNum, kind: INodeType, name: Seq<u8>) -> bool {
    let len = dirent_len(name.len() as int);
    &&& out.subrange(pos, pos + 15) == dirent_header(id, inode, len as u16, kind_number(kind))
    &&& out.subrange(pos + 15, pos + 15 + name.len()) == name
    &&& out[pos + 15 + name.len()] == 0u8
}

/// A directory entry as a specification sees it.
pub struct EntryView {
    pub kind: INodeType,
    pub inode: INodeNum,
    pub name: Seq<u8>,
}

/// Whether `out` holds the records of `ents` one after another from `pos` on.
pub open spec fn records_at(out: Seq<u8>, pos: int, ents: Seq<(u64, EntryView)>) -> bool
    decreases ents.len(),
{
    if ents.len() == 0 {
        true
    } else {
        &&& record_at(out, pos, ents[0].0, ents[0].1.inode, ents[0].1.kind, ents[0].1.name)
        &&& records_at(out, pos + dirent_len(ents[0].1.name.len() as int), ents.skip(1))
    }
}

/// The total length of the records of `ents`.
pub open spec fn records_len(ents: Seq<(u64, EntryView)>) -> int
    decreases ents.len(),
{
    if ents.len() == 0 {
        0
    } else {
        dirent_len(ents[0].1.name.len() as int) + records_len(ents.skip(1))
    }
}

/// Cached entries of a directory.
///
/// Each entry has an id; ids are handed out in increasing order, and the offset
/// of a directory file descriptor is the next id it will read, so entries added
/// or removed between reads never make others be skipped or repeated.
pub struct Directory {
    /// Entries by id, in increasing order of id; `None` until the directory
    /// has been read from its file system
    pub entries: Option<Vec<(u64, OwnedDirEntry)>>,
    /// The id of the entry of each name
    pub lookup: Vec<(Vec<u8>, u64)>,
    /// Next directory entry id to hand out
    pub id: u64,
    /// Inode number of the parent directory (needed to resolve ..)
    pub parent: INodeNum,
    /// File system mounted on this directory, if any
    pub mount: Option<FileSystemID>,
}

impl Directory {
    /// The cached entries, by id.
    pub open spec fn entries_view(&self) -> Seq<(u64, EntryView)> {
        match self.entries {
            Some(v) => Seq::new(
                v@.len(),
                |i: int| (v@[i].0, EntryView { kind: v@[i].1.kind, inode: v@[i].1.inode, name: v@[i].1.name@ }),
            ),
            None => Seq::empty(),
        }
    }

    /// The name-to-id lookup table.
    pub open spec fn lookup_view(&self) -> Seq<(Seq<u8>, u64)> {
        Seq::new(self.lookup@.len(), |i: int| (self.lookup@[i].0@, self.lookup@[i].1))
    }

    /// Ids increase along the entries and stay below the next id; names in the
    /// lookup table are distinct; a directory not read yet has handed out no
    /// id and knows no name.
    pub open spec fn wf(&self) -> bool {
        &&& self.entries is None ==> self.id == 0 && self.lookup@.len() == 0
        &&& forall|i: int, j: int|
            0 <= i < j < self.entries_view().len() ==> self.entries_view()[i].0 < self.entries_view()[j].0
        &&& forall|i: int| 0 <= i < self.entries_view().len() ==> self.entries_view()[i].0 < self.id
        &&& forall|i: int, j: int|
            0 <= i < j < self.lookup_view().len() ==> self.lookup_view()[i].0 != self.lookup_view()[j].0
    }

    /// The inode that the entry called `name` names.
    pub open spec fn spec_lookup(&self, name: Seq<u8>) -> Option<INodeNum> {
        match assoc_get(self.lookup_view(), name) {
            Some(id) => match assoc_get(self.entries_view(), id) {
                Some(e) => Some(e.inode),
                None => None,
            },
            None => None,
        }
    }

    /// A directory whose entries have not been read yet.
    pub fn new(parent: INodeNum) -> (r: Self)
        ensures
            r.wf(),
            r.entries is None,
            r.lookup@.len() == 0,
            r.parent == parent,
            r.mount is None,
            r.id == 0,
    {
        Directory { entries: None, mount: None, parent, id: 0, lookup: Vec::new() }
    }

    /// A directory known to be empty.
    pub fn empty(parent: INodeNum) -> (r: Self)
        ensures
            r.wf(),
            r.entries matches Some(v) && v@.len() == 0,
            r.lookup@.len() == 0,
            r.parent == parent,
            r.mount is None,
            r.id == 0,
    {
        let mut dir = Self::new(parent);
        dir.entries = Some(Vec::new());
        dir
    }

    /// The index in the lookup table of `name`.
    fn find_name(&self, name: &[u8]) -> (r: Option<usize>)
        ensures
            match r {
                Some(i) => i < self.lookup@.len() && self.lookup_view()[i as int].0 == name@ && forall|j: int|
                    0 <= j < i ==> self.lookup_view()[j].0 != name@,
                None => forall|j: int| 0 <= j < self.lookup@.len() ==> self.lookup_view()[j].0 != name@,
            },
    {
        let mut i: usize = 0;
        while i < self.lookup.len()
            invariant
                i <= self.lookup@.len(),
                forall|j: int| 0 <= j < i ==> self.lookup_view()[j].0 != name@,
            decreases self.lookup@.len() - i,
        {
            if bytes_eq(self.lookup[i].0.as_slice(), name) {
                return Some(i);
            }
            i = i + 1;
        }
        None
    }

    /// The index among the entries of the entry with id `id`.
    fn find_id(entries: &Vec<(u64, OwnedDirEntry)>, id: u64) -> (r: Option<usize>)
        ensures
            match r {
                Some(i) => i < entries@.len() && entries@[i as int].0 == id && forall|j: int|
                    0 <= j < i ==> entries@[j].0 != id,
                None => forall|j: int| 0 <= j < entries@.len() ==> entries@[j].0 != id,
            },
    {
        let mut i: usize = 0;
        while i < entries.len()
            invariant
                i <= entries@.len(),
                forall|j: int| 0 <= j < i ==> entries@[j].0 != id,
            decreases entries@.len() - i,
        {
            if entries[i].0 == id {
                return Some(i);
            }
            i = i + 1;
        }
        None
    }

    /// Adds entry `name` for inode `inode` of type `kind`, with the next id.
    pub fn add(&mut self, inode: INodeNum, kind: INodeType, name: &[u8])
        requires
            old(self).wf(),
            old(self).entries is Some,
            old(self).id < u64::MAX,
        ensures
            final(self).wf(),
            final(self).entries is Some,
            final(self).id == old(self).id + 1,
            final(self).parent == old(self).parent,
            final(self).mount == old(self).mount,
            final(self).entries_view() == old(self).entries_view().push(
                (old(self).id, EntryView { kind, inode, name: name@ }),
            ),
            assoc_get(final(self).lookup_view(), name@) == Some(old(self).id),
            forall|n: Seq<u8>| n != name@ ==> #[trigger] assoc_get(final(self).lookup_view(), n) == assoc_get(old(self).lookup_view(), n),
    {
        let id = self.id;
        self.id = id + 1;
        let mut entries = self.entries.take().unwrap();
        let ghost ev = entries@;
        entries.push((id, OwnedDirEntry { kind, inode, name: vstd::slice::slice_to_vec(name) }));
        self.entries = Some(entries);
        let ghost old_lookup = self.lookup_view();
        match self.find_name(name) {
            Some(i) => {
                self.lookup.set(i, (vstd::slice::slice_to_vec(name), id));
                proof {
                    assert(self.lookup_view() =~= old_lookup.update(i as int, (name@, id)));
                    assert forall|n: Seq<u8>| #[trigger] assoc_get(self.lookup_view(), n) == (if n == name@ { Some(id) } else { assoc_get(old_lookup, n) }) by {
                        crate::assoc::lemma_assoc_get_update(old_lookup, i as int, id, n);
                    }
                }
            },
            None => {
                self.lookup.push((vstd::slice::slice_to_vec(name), id));
                proof {
                    assert(self.lookup_view() =~= old_lookup.push((name@, id)));
                    lemma_assoc_get_none(old_lookup, name@);
                    assert forall|n: Seq<u8>| #[trigger] assoc_get(self.lookup_view(), n) == (if n == name@ { Some(id) } else { assoc_get(old_lookup, n) }) by {
                        crate::assoc::lemma_assoc_get_push(old_lookup, (name@, id), n);
                    }
                }
            },
        }
        assert(self.entries_view() =~= old(self).entries_view().push((id, EntryView { kind, inode, name: name@ })));
    }

    /// Removes entry `name`, if there is one.
    pub fn remove(&mut self, name: &[u8])
        requires
            old(self).wf(),
            old(self).entries is Some,
        ensures
            final(self).wf(),
            final(self).entries is Some,
            final(self).id == old(self).id,
            final(self).parent == old(self).parent,
            final(self).mount == old(self).mount,
            assoc_get(final(self).lookup_view(), name@) is None,
            forall|n: Seq<u8>| n != name@ ==> #[trigger] assoc_get(final(self).lookup_view(), n) == assoc_get(old(self).lookup_view(), n),
            final(self).entries_view().len() <= old(self).entries_view().len(),
    {
        let ghost old_lookup = self.lookup_view();
        match self.find_name(name) {
            None => {
                proof { lemma_assoc_get_none(old_lookup, name@); }
            },
            Some(i) => {
                let (_n, id) = self.lookup.remove(i);
                proof {
                    assert(self.lookup_view() =~= old_lookup.remove(i as int));
                    lemma_assoc_get_remove_unique(old_lookup, i as int);
                }
                let ghost ev = self.entries_view();
                let mut entries = self.entries.take().unwrap();
                match Self::find_id(&entries, id) {
                    Some(j) => {
                        entries.remove(j);
                        self.entries = Some(entries);
                        proof {
                            assert(self.entries_view() =~= ev.remove(j as int));
                            assert forall|a: int, b: int|
                                0 <= a < b < self.entries_view().len() implies self.entries_view()[a].0
                                < self.entries_view()[b].0 by {
                                let a2 = if a < j { a } else { a + 1 };
                                let b2 = if b < j { b } else { b + 1 };
                                assert(self.entries_view()[a] == ev[a2]);
                                assert(self.entries_view()[b] == ev[b2]);
                            }
                            assert forall|a: int| 0 <= a < self.entries_view().len() implies self.entries_view()[a].0
                                < self.id by {
                                let a2 = if a < j { a } else { a + 1 };
                                assert(self.entries_view()[a] == ev[a2]);
                            }
                        }
                    },
                    None => {
                        self.entries = Some(entries);
                        assert(self.entries_view() =~= ev);
                    },
                }
            },
        }
    }

    /// The inode of entry `name`.
    pub fn lookup_inode(&self, name: &[u8]) -> (r: Option<INodeNum>)
        requires
            self.entries is Some,
        ensures
            r == self.spec_lookup(name@),
    {
        let i = match self.find_name(name) {
            Some(i) => i,
            None => {
                proof { lemma_assoc_get_none(self.lookup_view(), name@); }
                return None;
            },
        };
        proof { lemma_assoc_get_index(self.lookup_view(), name@, i as int); }
        let id = self.lookup[i].1;
        let entries = self.entries.as_ref().unwrap();
        match Self::find_id(entries, id) {
            Some(j) => {
                proof { lemma_assoc_get_index(self.entries_view(), id, j as int); }
                Some(entries[j].1.inode)
            },
            None => {
                proof { lemma_assoc_get_none(self.entries_view(), id); }
                None
            },
        }
    }

    /// The index of the first entry with an id of at least `offset`.
    fn first_from(entries: &Vec<(u64, OwnedDirEntry)>, offset: u64) -> (r: usize)
        ensures
            r <= entries@.len(),
            forall|j: int| 0 <= j < r ==> entries@[j].0 < offset,
            r < entries@.len() ==> entries@[r as int].0 >= offset,
    {
        let mut i: usize = 0;
        while i < entries.len() && entries[i].0 < offset
            invariant
                i <= entries@.len(),
                forall|j: int| 0 <= j < i ==> entries@[j].0 < offset,
            decreases entries@.len() - i,
        {
            i = i + 1;
        }
        i
    }

    /// Writes the records of the entries with an id of at least `*offset` into
    /// `output`, as many as fit, and advances `*offset` past them. Returns the
    /// number of bytes written.
    pub fn getdents(&self, offset: &mut u64, output: &mut [u8]) -> (r: Result<usize>)
        requires
            self.wf(),
            self.entries is Some,
        ensures
            final(output)@.len() == old(output)@.len(),
            ({
                let rem = self.entries_view().filter(from_id(*old(offset)));
                let k = fitting_count(rem, old(output)@.len() as int);
                match r {
                    Ok(n) => {
                        &&& n == records_len(rem.take(k))
                        &&& records_at(final(output)@, 0, rem.take(k))
                        &&& *final(offset) == if k > 0 { rem[k - 1].0 + 1 } else { *old(offset) as int }
                        &&& forall|j: int| 0 <= j < k ==> dirent_len(#[trigger] rem[j].1.name.len() as int) <= u16::MAX
                    },
                    Err(e) => exists|j: int| 0 <= j < k && dirent_len(#[trigger] rem[j].1.name.len() as int) > u16::MAX,
                }
            }),
    {
        let entries = self.entries.as_ref().unwrap();
        let start = Self::first_from(entries, *offset);
        let ghost ev = self.entries_view();
        let ghost rem = ev.filter(from_id(*old(offset)));
        proof { lemma_filter_sorted_suffix(ev, *old(offset), start as int); }
        let size = output.len();
        let mut pos: usize = 0;
        let mut i: usize = start;
        proof {
            assert(rem.skip(0) =~= rem);
            assert(rem.take(0) =~= Seq::<(u64, EntryView)>::empty());
            lemma_fitting_nonneg(rem, size as int);
        }
        let mut stop = false;
        while i < entries.len() && !stop
            invariant
                start <= i <= entries@.len(),
                entries@.len() == ev.len(),
                rem == ev.skip(start as int),
                rem == ev.filter(from_id(*old(offset))),
                ev == self.entries_view(),
                self.entries == Some(*entries),
                self.wf(),
                pos <= size,
                size == output@.len(),
                output@.len() == old(output)@.len(),
                pos == records_len(rem.take(i - start)),
                records_at(output@, 0, rem.take(i - start)),
                forall|j: int| 0 <= j < i - start ==> dirent_len(#[trigger] rem[j].1.name.len() as int) <= u16::MAX,
                *offset == if i > start { rem[i - start - 1].0 + 1 } else { *old(offset) as int },
                fitting_count(rem, size as int) == (i - start) + fitting_count(rem.skip(i - start), size - pos),
                stop ==> fitting_count(rem.skip(i - start), size - pos) == 0,
            decreases entries@.len() - i + (if stop { 0int } else { 1int }),
        {
            let ghost m = i - start;
            proof {
                assert(rem[m] == ev[i as int]);
                lemma_fitting_step(rem, m, size - pos);
                lemma_dirent_len_bounds(rem[m].1.name.len() as int);
            }
            let name = &entries[i].1.name;
            let required128: u128 = ((16 + name.len() as u128 + 1 + 7) / 8) * 8;
            assert(self.entries == Some(*entries));
            assert(ev[i as int].1.name == entries@[i as int].1.name@);
            assert(rem[m].1.name == name@);
            assert(required128 == dirent_len(name@.len() as int));
            if ((size - pos) as u128) < required128 {
                stop = true;
            } else {
                let required = required128 as usize;
                if required > u16::MAX as usize {
                    proof {
                        lemma_fitting_nonneg(rem.skip(m + 1), size - pos - required);
                        assert(dirent_len(rem[m].1.name.len() as int) > u16::MAX);
                        assert(dirent_len(rem[m].1.name.len() as int) <= size - pos);
                        assert(fitting_count(rem.skip(m), size - pos) >= 1);
                        assert(fitting_count(rem, size as int) >= m + 1);

                    }
                    return Err(Error::io("file name too long"));
                }
                let off = entries[i].0;
                let ghost before = output@;
                write_record(output, pos, off, entries[i].1.inode, required as u16, entries[i].1.kind.to_u8(), name.as_slice());
                proof {
                    lemma_records_frame(before, output@, 0, rem.take(m));
                    lemma_records_extend(output@, 0, rem, m);
                    lemma_records_len_take(rem, m);
                }
                pos = pos + required;
                *offset = off + 1;
                i = i + 1;
            }
        }
        proof {
            let m = i - start;
            if !stop {
                assert(rem.skip(m) =~= Seq::<(u64, EntryView)>::empty());
                assert(fitting_count(rem.skip(m), size - pos) == 0);
            }
        }
        Ok(pos)
    }

    /// Whether the directory has no entries.
    pub fn is_empty(&self) -> (r: bool)
        requires
            self.entries is Some,
        ensures
            r == (self.entries_view().len() == 0),
    {
        self.entries.as_ref().unwrap().len() == 0
    }
}

/// Removing the pair at `i` of a list with distinct keys removes just its key.
pub proof fn lemma_assoc_get_remove_unique<K, V>(s: Seq<(K, V)>, i: int)
    requires
        0 <= i < s.len(),
        forall|a: int, b: int| 0 <= a < b < s.len() ==> s[a].0 != s[b].0,
    ensures
        assoc_get(s.remove(i), s[i].0) is None,
        forall|k: K| k != s[i].0 ==> #[trigger] assoc_get(s.remove(i), k) == assoc_get(s, k),
{
    let r = s.remove(i);
    assert forall|j: int| 0 <= j < r.len() implies r[j].0 != s[i].0 by {
        if j < i {} else { assert(r[j] == s[j + 1]); }
    }
    lemma_assoc_get_none(r, s[i].0);
    assert forall|k: K| k != s[i].0 implies #[trigger] assoc_get(r, k) == assoc_get(s, k) by {
        crate::assoc::lemma_assoc_get_some(s, k);
        crate::assoc::lemma_assoc_get_some(r, k);
        if exists|j: int| 0 <= j < s.len() && s[j].0 == k {
            let j = choose|j: int| 0 <= j < s.len() && s[j].0 == k;
            assert(forall|a: int| 0 <= a < s.len() && s[a].0 == k ==> a == j);
            lemma_assoc_get_index(s, k, j);
            if j < i {
                assert(r[j] == s[j]);
                lemma_assoc_get_index(r, k, j);
            } else {
                assert(j != i);
                assert(r[j - 1] == s[j]);
                assert forall|a: int| 0 <= a < j - 1 implies r[a].0 != k by {
                    if a < i { assert(r[a] == s[a]); } else { assert(r[a] == s[a + 1]); }
                }
                lemma_assoc_get_index(r, k, j - 1);
            }
        } else {
            assert forall|a: int| 0 <= a < r.len() implies r[a].0 != k by {
                if a < i { assert(r[a] == s[a]); } else { assert(r[a] == s[a + 1]); }
            }
        }
    }
}

/// The entries with an id of at least `offset`.
pub open spec fn from_id(offset: u64) -> spec_fn((u64, EntryView)) -> bool {
    |e: (u64, EntryView)| e.0 >= offset
}

proof fn lemma_fitting_nonneg(s: Seq<(u64, EntryView)>, size: int)
    ensures
        0 <= fitting_count(s, size) <= s.len(),
    decreases s.len(),
{
    if s.len() > 0 && dirent_len(s[0].1.name.len() as int) <= size {
        lemma_fitting_nonneg(s.skip(1), size - dirent_len(s[0].1.name.len() as int));
    }
}

proof fn lemma_records_len_take(s: Seq<(u64, EntryView)>, k: int)
    requires
        0 <= k < s.len(),
    ensures
        records_len(s.take(k + 1)) == records_len(s.take(k)) + dirent_len(s[k].1.name.len() as int),
    decreases k,
{
    if k == 0 {
        assert(s.take(1).skip(1) =~= Seq::<(u64, EntryView)>::empty());
        assert(s.take(0) =~= Seq::<(u64, EntryView)>::empty());
    } else {
        lemma_records_len_take(s.skip(1), k - 1);
        assert(s.take(k + 1).skip(1) =~= s.skip(1).take(k));
        assert(s.take(k).skip(1) =~= s.skip(1).take(k - 1));
        assert(s.take(k + 1)[0] == s[0]);
        assert(s.take(k)[0] == s[0]);
    }
}

proof fn lemma_dirent_len_bounds(n: int)
    requires
        n >= 0,
    ensures
        dirent_len(n) >= 17 + n,
        dirent_len(n) <= 24 + n,
        dirent_len(n) % 8 == 0,
{
}

proof fn lemma_records_len_nonneg(s: Seq<(u64, EntryView)>)
    ensures
        records_len(s) >= 0,
    decreases s.len(),
{
    if s.len() > 0 {
        lemma_records_len_nonneg(s.skip(1));
        lemma_dirent_len_bounds(s[0].1.name.len() as int);
    }
}

proof fn lemma_records_frame(a: Seq<u8>, b: Seq<u8>, pos: int, s: Seq<(u64, EntryView)>)
    requires
        records_at(a, pos, s),
        0 <= pos,
        pos + records_len(s) <= a.len(),
        a.len() == b.len(),
        forall|j: int| pos <= j < pos + records_len(s) ==> a[j] == b[j],
    ensures
        records_at(b, pos, s),
    decreases s.len(),
{
    if s.len() > 0 {
        let l = dirent_len(s[0].1.name.len() as int);
        lemma_dirent_len_bounds(s[0].1.name.len() as int);
        lemma_records_len_nonneg(s.skip(1));
        lemma_records_frame(a, b, pos + l, s.skip(1));
        assert(a.subrange(pos, pos + 15) =~= b.subrange(pos, pos + 15));
        assert(a.subrange(pos + 15, pos + 15 + s[0].1.name.len()) =~= b.subrange(pos + 15, pos + 15 + s[0].1.name.len()));
    }
}

proof fn lemma_records_extend(out: Seq<u8>, pos: int, s: Seq<(u64, EntryView)>, k: int)
    requires
        0 <= k < s.len(),
        records_at(out, pos, s.take(k)),
        record_at(out, pos + records_len(s.take(k)), s[k].0, s[k].1.inode, s[k].1.kind, s[k].1.name),
    ensures
        records_at(out, pos, s.take(k + 1)),
    decreases k,
{
    if k == 0 {
        assert(s.take(1).skip(1) =~= Seq::<(u64, EntryView)>::empty());
        assert(s.take(0) =~= Seq::<(u64, EntryView)>::empty());
        assert(records_len(s.take(0)) == 0);
        assert(s.take(1)[0] == s[0]);
        assert(records_at(out, pos + dirent_len(s[0].1.name.len() as int), s.take(1).skip(1)));
    } else {
        assert(s.take(k + 1).skip(1) =~= s.skip(1).take(k));
        assert(s.take(k).skip(1) =~= s.skip(1).take(k - 1));
        assert(s.take(k + 1)[0] == s[0]);
        assert(s.take(k)[0] == s[0]);
        let l = dirent_len(s[0].1.name.len() as int);
        assert(records_len(s.take(k)) == l + records_len(s.skip(1).take(k - 1)));
        lemma_records_extend(out, pos + l, s.skip(1), k - 1);
    }
}

proof fn lemma_fitting_step(s: Seq<(u64, EntryView)>, m: int, size: int)
    requires
        0 <= m < s.len(),
    ensures
        dirent_len(s[m].1.name.len() as int) <= size ==> fitting_count(s.skip(m), size) == 1 + fitting_count(
            s.skip(m + 1),
            size - dirent_len(s[m].1.name.len() as int),
        ),
        dirent_len(s[m].1.name.len() as int) > size ==> fitting_count(s.skip(m), size) == 0,
{
    assert(s.skip(m)[0] == s[m]);
    assert(s.skip(m).skip(1) =~= s.skip(m + 1));
}

/// How many of the leading records of `ents` fit one after another in `size` bytes.
pub open spec fn fitting_count(ents: Seq<(u64, EntryView)>, size: int) -> int
    decreases ents.len(),
{
    if ents.len() == 0 || dirent_len(ents[0].1.name.len() as int) > size {
        0
    } else {
        1 + fitting_count(ents.skip(1), size - dirent_len(ents[0].1.name.len() as int))
    }
}

/// Writes the record of entry `off` (inode `inode`, type number `kind`, record
/// length `reclen`, name `name`) at `pos` of `out`.
fn write_record(out: &mut [u8], pos: usize, off: u64, inode: INodeNum, reclen: u16, kind: u8, name: &[u8])
    requires
        pos + 16 + name@.len() <= old(out)@.len(),
    ensures
        final(out)@.len() == old(out)@.len(),
        final(out)@.subrange(pos as int, pos + 15) == dirent_header(off, inode, reclen, kind),
        final(out)@.subrange(pos + 15, pos + 15 + name@.len()) == name@,
        final(out)@[pos + 15 + name@.len()] == 0u8,
        forall|j: int| 0 <= j < pos ==> final(out)@[j] == old(out)@[j],
{
    let n = out.len();
    let lo = (off & 0xffff_ffff) as u32;
    let hi = (off >> 32) as u32;
    assert(lo == (off % 0x1_0000_0000) as u32 && hi == (off / 0x1_0000_0000) as u32) by (bit_vector)
        requires lo == (off & 0xffff_ffff) as u32, hi == (off >> 32) as u32;
    crate::bytes::write_u32_le(out, pos, lo);
    crate::bytes::write_u32_le(out, pos + 4, hi);
    crate::bytes::write_u32_le(out, pos + 8, inode);
    crate::bytes::write_u16_le(out, pos + 12, reclen);
    out[pos + 14] = kind;
    let ghost header = out@.subrange(pos as int, pos + 15);
    assert(header =~= dirent_header(off, inode, reclen, kind));
    let mut i: usize = 0;
    while i < name.len()
        invariant
            n == out@.len(),
            pos + 16 + name@.len() <= out@.len(),
            out@.len() == old(out)@.len(),
            i <= name@.len(),
            out@.subrange(pos as int, pos + 15) == dirent_header(off, inode, reclen, kind),
            forall|j: int| 0 <= j < i ==> out@[pos + 15 + j] == name@[j],
            forall|j: int| 0 <= j < pos ==> out@[j] == old(out)@[j],
        decreases name@.len() - i,
    {
        out[pos + 15 + i] = name[i];
        i = i + 1;
    }
    out[pos + 15 + name.len()] = 0;
    assert(out@.subrange(pos + 15, pos + 15 + name@.len()) =~= name@);
}

/// In a list sorted by id, the entries with an id of at least `offset` are
/// those from the first such one on.
proof fn lemma_filter_sorted_suffix(ev: Seq<(u64, EntryView)>, offset: u64, start: int)
    requires
        0 <= start <= ev.len(),
        forall|j: int| 0 <= j < start ==> ev[j].0 < offset,
        forall|i: int, j: int| 0 <= i < j < ev.len() ==> ev[i].0 < ev[j].0,
        start < ev.len() ==> ev[start].0 >= offset,
    ensures
        ev.filter(from_id(offset)) == ev.skip(start),
    decreases ev.len(),
{
    let f = from_id(offset);
    reveal(Seq::filter);
    if ev.len() == 0 {
        assert(ev.skip(start) =~= ev);
    } else {
        let d = ev.drop_last();
        assert(ev.filter(f) == (if f(ev.last()) { d.filter(f).push(ev.last()) } else { d.filter(f) }));
        if start == ev.len() {
            lemma_filter_sorted_suffix(d, offset, start - 1);
            assert(!f(ev.last()));
            assert(ev.skip(start) =~= Seq::<(u64, EntryView)>::empty());
            assert(d.skip(start - 1) =~= Seq::<(u64, EntryView)>::empty());
        } else {
            if start < d.len() {
                assert(d[start] == ev[start]);
            }
            lemma_filter_sorted_suffix(d, offset, start);
            assert(ev.last().0 >= offset) by {
                if start < ev.len() - 1 {
                    assert(ev[start].0 < ev[ev.len() - 1].0);
                }
            }
            assert(f(ev.last()));
            assert(ev.skip(start) =~= d.skip(start).push(ev.last()));
        }
    }
}

/// The number of leading entries of `ev` whose ids are below `offset`.
pub open spec fn prefix_below(ev: Seq<(u64, EntryView)>, offset: u64) -> int
    decreases ev.len(),
{
    if ev.len() == 0 || ev[0].0 >= offset {
        0
    } else {
        1 + prefix_below(ev.skip(1), offset)
    }
}

/// In entries with increasing ids, the entries before `prefix_below` are
/// those with ids below `offset`.
proof fn lemma_prefix_below(ev: Seq<(u64, EntryView)>, offset: u64)
    requires
        forall|i: int, j: int| 0 <= i < j < ev.len() ==> ev[i].0 < ev[j].0,
    ensures
        0 <= prefix_below(ev, offset) <= ev.len(),
        forall|j: int| 0 <= j < prefix_below(ev, offset) ==> ev[j].0 < offset,
        prefix_below(ev, offset) < ev.len() ==> ev[prefix_below(ev, offset)].0 >= offset,
    decreases ev.len(),
{
    if ev.len() > 0 && ev[0].0 < offset {
        let t = ev.skip(1);
        assert forall|i: int, j: int| 0 <= i < j < t.len() implies t[i].0 < t[j].0 by {
            assert(t[i] == ev[i + 1] && t[j] == ev[j + 1]);
        }
        lemma_prefix_below(t, offset);
        let p = prefix_below(t, offset);
        assert forall|j: int| 0 <= j < 1 + p implies ev[j].0 < offset by {
            if j > 0 {
                assert(ev[j] == t[j - 1]);
            }
        }
    }
}

/// What `getdents` gives back of directory entries `ev` (ids increasing)
/// from offset `offset` into `size` bytes is exactly the entries whose ids lie
/// from `offset` up to the new offset. So entries added or removed between
/// reads never make others be skipped or repeated: an entry with an id of at
/// least `offset` is either given back now or has an id at or past the new
/// offset, where the next read starts, and never both.
pub proof fn lemma_getdents_no_skip_no_repeat(ev: Seq<(u64, EntryView)>, offset: u64, size: int, e: (u64, EntryView))
    requires
        forall|i: int, j: int| 0 <= i < j < ev.len() ==> ev[i].0 < ev[j].0,
        ev.contains(e),
    ensures
        ({
            let rem = ev.filter(from_id(offset));
            let k = fitting_count(rem, size);
            let next: int = if k > 0 { rem[k - 1].0 + 1 } else { offset as int };
            rem.take(k).contains(e) <==> (offset <= e.0 && e.0 < next)
        }),
{
    lemma_prefix_below(ev, offset);
    let p = prefix_below(ev, offset);
    lemma_filter_sorted_suffix(ev, offset, p);
    let rem = ev.filter(from_id(offset));
    lemma_fitting_nonneg(rem, size);
    let k = fitting_count(rem, size);
    let m = choose|m: int| 0 <= m < ev.len() && ev[m] == e;
    let next: int = if k > 0 { rem[k - 1].0 + 1 } else { offset as int };
    if rem.take(k).contains(e) {
        let t = choose|t: int| 0 <= t < k && rem.take(k)[t] == e;
        assert(rem[t] == ev[p + t]);
        if p + t != m {
            assert(ev[p + t].0 != ev[m].0);
        }
        if k > 0 {
            assert(rem[k - 1] == ev[p + k - 1]);
        }
        if m > p {
            assert(ev[p].0 < ev[m].0);
        }
    }
    if offset <= e.0 && e.0 < next {
        if m < p {
            assert(ev[m].0 < offset);
        }
        assert(k > 0);
        assert(rem[k - 1] == ev[p + k - 1]);
        if m >= p + k {
            assert(ev[p + k - 1].0 < ev[m].0 || p + k - 1 == m);
        }
        assert(rem.take(k)[m - p] == ev[m]);
    }
}

/// Two reads of a directory, with the directory changed between them (to
/// entries `ev2`, ids still increasing): the first reads from `offset` into
/// `size` bytes and leaves the offset where the second starts. An entry that
/// is in the directory for both reads, with an id of at least `offset`, is
/// among the entries the first read gives or among those the second read
/// starts from, and never both: it is neither skipped nor repeated.
pub proof fn lemma_getdents_across_calls(
    ev1: Seq<(u64, EntryView)>,
    ev2: Seq<(u64, EntryView)>,
    offset: u64,
    size: int,
    e: (u64, EntryView),
)
    requires
        forall|i: int, j: int| 0 <= i < j < ev1.len() ==> ev1[i].0 < ev1[j].0,
        forall|i: int, j: int| 0 <= i < j < ev2.len() ==> ev2[i].0 < ev2[j].0,
        forall|i: int| 0 <= i < ev1.len() ==> ev1[i].0 < u64::MAX,
        ev1.contains(e),
        ev2.contains(e),
        e.0 >= offset,
    ensures
        ({
            let rem = ev1.filter(from_id(offset));
            let k = fitting_count(rem, size);
            let next: u64 = if k > 0 { (rem[k - 1].0 + 1) as u64 } else { offset };
            rem.take(k).contains(e) != ev2.filter(from_id(next)).contains(e)
        }),
{
    lemma_getdents_no_skip_no_repeat(ev1, offset, size, e);
    let rem = ev1.filter(from_id(offset));
    let k = fitting_count(rem, size);
    lemma_fitting_nonneg(rem, size);
    ev1.filter_lemma(from_id(offset));
    let next: u64 = if k > 0 { (rem[k - 1].0 + 1) as u64 } else { offset };
    if k > 0 {
        lemma_prefix_below(ev1, offset);
        let p = prefix_below(ev1, offset);
        lemma_filter_sorted_suffix(ev1, offset, p);
        assert(rem[k - 1] == ev1[p + k - 1]);
    }
    ev2.filter_lemma(from_id(next));
    let f2 = ev2.filter(from_id(next));
    let m = choose|m: int| 0 <= m < ev2.len() && ev2[m] == e;
    if e.0 >= next {
        assert(f2.contains(ev2[m]));
    }
    if f2.contains(e) {
        let t = choose|t: int| 0 <= t < f2.len() && f2[t] == e;
        assert(from_id(next)(f2[t]));
    }
}

/// Whether `name` is a name no new directory entry can have: empty, "." or "..".
pub open spec fn is_special_name(name: Seq<u8>) -> bool {
    name.len() == 0 || name == seq![46u8] || name == seq![46u8, 46u8]
}

/// Whether `name` is empty, "." or "..".
pub fn special_name(name: &[u8]) -> (r: bool)
    ensures
        r == is_special_name(name@),
{
    if name.len() == 0 {
        return true;
    }
    if name.len() == 1 && name[0] == 46 {
        assert(name@ =~= seq![46u8]);
        return true;
    }
    if name.len() == 2 && name[0] == 46 && name[1] == 46 {
        assert(name@ =~= seq![46u8, 46u8]);
        return true;
    }
    assert(name@ != seq![46u8]);
    assert(name@ != seq![46u8, 46u8]);
    false
}

/// Manages a single file system: the open files on it and its cached
/// directory entries.
pub struct FileSystemManager<F> {
    pub fs: F,
    /// Location where this file system is mounted, or `None` if this is the root file system.
    pub mount_point: Option<(FileSystemID, INodeNum)>,
    /// Number of open files pointing to each inode (never zero).
    pub open_file_count: Vec<(INodeNum, usize)>,
    /// The inode each open file descriptor refers to
    pub open_files: Vec<(ProcessFileDescriptor, INodeNum)>,
    /// Cached directory entries
    pub directories: Vec<(INodeNum, Directory)>,
    /// Number of mount points in this file system.
    pub mount_count: u32,
}

/// Keys of `s` are distinct.
pub open spec fn keys_distinct<K, V>(s: Seq<(K, V)>) -> bool {
    forall|i: int, j: int| 0 <= i < j < s.len() ==> s[i].0 != s[j].0
}

impl<F: FileSystem> FileSystemManager<F> {
    /// The manager's invariant.
    pub open spec fn wf(&self) -> bool {
        &&& self.fs.fs_inv()
        &&& keys_distinct(self.open_files@)
        &&& keys_distinct(self.open_file_count@)
        &&& forall|i: int| 0 <= i < self.open_file_count@.len() ==> #[trigger] self.open_file_count@[i].1 > 0
        &&& keys_distinct(self.directories@)
        &&& forall|i: int| 0 <= i < self.directories@.len() ==> #[trigger] self.directories@[i].1.wf()
    }

    /// The inode that open file descriptor `fd` refers to.
    pub open spec fn fd_inode(&self, fd: ProcessFileDescriptor) -> Option<INodeNum> {
        assoc_get(self.open_files@, fd)
    }

    /// The number of open files on `inode`.
    pub open spec fn ref_count(&self, inode: INodeNum) -> Option<usize> {
        assoc_get(self.open_file_count@, inode)
    }

    fn find_open(&self, fd: ProcessFileDescriptor) -> (r: Option<usize>)
        ensures
            match r {
                Some(i) => i < self.open_files@.len() && self.open_files@[i as int].0 == fd && forall|j: int|
                    0 <= j < i ==> self.open_files@[j].0 != fd,
                None => forall|j: int| 0 <= j < self.open_files@.len() ==> self.open_files@[j].0 != fd,
            },
    {
        let mut i: usize = 0;
        while i < self.open_files.len()
            invariant
                i <= self.open_files@.len(),
                forall|j: int| 0 <= j < i ==> self.open_files@[j].0 != fd,
            decreases self.open_files@.len() - i,
        {
            if self.open_files[i].0 == fd {
                return Some(i);
            }
            i = i + 1;
        }
        None
    }

    fn find_count(&self, inode: INodeNum) -> (r: Option<usize>)
        ensures
            match r {
                Some(i) => i < self.open_file_count@.len() && self.open_file_count@[i as int].0 == inode && forall|j: int|
                    0 <= j < i ==> self.open_file_count@[j].0 != inode,
                None => forall|j: int| 0 <= j < self.open_file_count@.len() ==> self.open_file_count@[j].0 != inode,
            },
    {
        let mut i: usize = 0;
        while i < self.open_file_count.len()
            invariant
                i <= self.open_file_count@.len(),
                forall|j: int| 0 <= j < i ==> self.open_file_count@[j].0 != inode,
            decreases self.open_file_count@.len() - i,
        {
            if self.open_file_count[i].0 == inode {
                return Some(i);
            }
            i = i + 1;
        }
        None
    }

    fn find_dir(&self, inode: INodeNum) -> (r: Option<usize>)
        ensures
            match r {
                Some(i) => i < self.directories@.len() && self.directories@[i as int].0 == inode && forall|j: int|
                    0 <= j < i ==> self.directories@[j].0 != inode,
                None => forall|j: int| 0 <= j < self.directories@.len() ==> self.directories@[j].0 != inode,
            },
    {
        let mut i: usize = 0;
        while i < self.directories.len()
            invariant
                i <= self.directories@.len(),
                forall|j: int| 0 <= j < i ==> self.directories@[j].0 != inode,
            decreases self.directories@.len() - i,
        {
            if self.directories[i].0 == inode {
                return Some(i);
            }
            i = i + 1;
        }
        None
    }

    /// The inode of open file `fd`.
    pub fn open_inode(&self, fd: ProcessFileDescriptor) -> (r: Option<INodeNum>)
        ensures
            r == self.fd_inode(fd),
    {
        match self.find_open(fd) {
            Some(i) => {
                proof { lemma_assoc_get_index(self.open_files@, fd, i as int); }
                Some(self.open_files[i].1)
            },
            None => {
                proof { lemma_assoc_get_none(self.open_files@, fd); }
                None
            },
        }
    }

    /// Increase the reference count of `inode` (as if one more file were open on it).
    pub fn inc_ref(&mut self, inode: INodeNum)
        requires
            old(self).wf(),
        ensures
            final(self).wf(),
            final(self).fs == old(self).fs,
            final(self).open_files == old(self).open_files,
            final(self).directories == old(self).directories,
            final(self).mount_point == old(self).mount_point,
            final(self).mount_count == old(self).mount_count,
            final(self).ref_count(inode) is Some,
            forall|i: INodeNum| i != inode ==> #[trigger] final(self).ref_count(i) == old(self).ref_count(i),
    {
        let ghost old_counts = self.open_file_count@;
        match self.find_count(inode) {
            Some(i) => {
                let c = self.open_file_count[i].1;
                if c < usize::MAX {
                    self.open_file_count.set(i, (inode, c + 1));
                }
                proof {
                    assert forall|a: int, b: int| 0 <= a < b < self.open_file_count@.len() implies self.open_file_count@[a].0
                        != self.open_file_count@[b].0 by {
                        assert(self.open_file_count@[a].0 == old_counts[a].0);
                        assert(self.open_file_count@[b].0 == old_counts[b].0);
                    }
                    assert forall|j: int| 0 <= j < self.open_file_count@.len() implies #[trigger] self.open_file_count@[j].1 > 0 by {
                        if j != i { assert(self.open_file_count@[j] == old_counts[j]); }
                    }
                    if c < usize::MAX {
                        assert(self.open_file_count@ == old_counts.update(i as int, (old_counts[i as int].0, (c + 1) as usize)));
                        assert forall|k: INodeNum| k != inode implies #[trigger] assoc_get(self.open_file_count@, k) == assoc_get(old_counts, k) by {
                            crate::assoc::lemma_assoc_get_update(old_counts, i as int, (c + 1) as usize, k);
                        }
                        crate::assoc::lemma_assoc_get_update(old_counts, i as int, (c + 1) as usize, inode);
                    } else {
                        lemma_assoc_get_index(old_counts, inode, i as int);
                    }
                }
            },
            None => {
                self.open_file_count.push((inode, 1));
                proof {
                    lemma_assoc_get_none(old_counts, inode);
                    assert forall|k: INodeNum| #[trigger] assoc_get(self.open_file_count@, k) == (match assoc_get(old_counts, k) {
                        Some(v) => Some(v),
                        None => if k == inode { Some(1usize) } else { None },
                    }) by {
                        crate::assoc::lemma_assoc_get_push(old_counts, (inode, 1usize), k);
                    }
                    assert forall|a: int, b: int| 0 <= a < b < self.open_file_count@.len() implies self.open_file_count@[a].0
                        != self.open_file_count@[b].0 by {
                        if b == old_counts.len() {} else {}
                    }
                    assert forall|j: int| 0 <= j < self.open_file_count@.len() implies #[trigger] self.open_file_count@[j].1 > 0 by {
                        if j < old_counts.len() { assert(self.open_file_count@[j] == old_counts[j]); }
                    }
                }
            },
        }
    }

    /// Decrease the reference count of `inode` (as if one fewer file were open
    /// on it); when it drops to zero the file system releases the inode.
    pub fn dec_ref(&mut self, inode: INodeNum)
        requires
            old(self).wf(),
        ensures
            final(self).wf(),
            final(self).open_files == old(self).open_files,
            final(self).directories == old(self).directories,
            final(self).mount_point == old(self).mount_point,
            final(self).mount_count == old(self).mount_count,
            forall|i: INodeNum| #[trigger] final(self).fs.file_data(i) == old(self).fs.file_data(i),
            forall|i: INodeNum| #[trigger] final(self).fs.inode_kind(i) == old(self).fs.inode_kind(i),
            final(self).fs.spec_root() == old(self).fs.spec_root(),
            forall|i: INodeNum| i != inode ==> #[trigger] final(self).ref_count(i) == old(self).ref_count(i),
            old(self).ref_count(inode) matches Some(c) ==> final(self).ref_count(inode) == if c > 1 {
                Some((c - 1) as usize)
            } else {
                None::<usize>
            },
            old(self).ref_count(inode) is None ==> final(self).ref_count(inode) is None,
    {
        let ghost old_counts = self.open_file_count@;
        match self.find_count(inode) {
            None => {
                proof { lemma_assoc_get_none(old_counts, inode); }
            },
            Some(i) => {
                proof { lemma_assoc_get_index(old_counts, inode, i as int); }
                let c = self.open_file_count[i].1;
                if c > 1 {
                    self.open_file_count.set(i, (inode, c - 1));
                    proof {
                        assert(self.open_file_count@ == old_counts.update(i as int, (old_counts[i as int].0, (c - 1) as usize)));
                        assert forall|k: INodeNum| #[trigger] assoc_get(self.open_file_count@, k) == (if k == inode { Some((c - 1) as usize) } else { assoc_get(old_counts, k) }) by {
                            crate::assoc::lemma_assoc_get_update(old_counts, i as int, (c - 1) as usize, k);
                        }
                        assert forall|a: int, b: int| 0 <= a < b < self.open_file_count@.len() implies self.open_file_count@[a].0
                            != self.open_file_count@[b].0 by {
                            assert(self.open_file_count@[a].0 == old_counts[a].0);
                            assert(self.open_file_count@[b].0 == old_counts[b].0);
                        }
                        assert forall|j: int| 0 <= j < self.open_file_count@.len() implies #[trigger] self.open_file_count@[j].1 > 0 by {
                            if j != i { assert(self.open_file_count@[j] == old_counts[j]); }
                        }
                    }
                } else {
                    self.open_file_count.remove(i);
                    proof {
                        lemma_assoc_get_remove_unique(old_counts, i as int);
                        assert forall|a: int, b: int| 0 <= a < b < self.open_file_count@.len() implies self.open_file_count@[a].0
                            != self.open_file_count@[b].0 by {
                            let a2 = if a < i { a } else { a + 1 };
                            let b2 = if b < i { b } else { b + 1 };
                            assert(self.open_file_count@[a] == old_counts[a2]);
                            assert(self.open_file_count@[b] == old_counts[b2]);
                        }
                        assert forall|j: int| 0 <= j < self.open_file_count@.len() implies #[trigger] self.open_file_count@[j].1 > 0 by {
                            let j2 = if j < i { j } else { j + 1 };
                            assert(self.open_file_count@[j] == old_counts[j2]);
                        }
                    }
                    self.fs.release(inode);
                }
            },
        }
    }
}

/// The inode of the last entry called `name` of listing `l`, if any.
pub open spec fn last_named(l: Seq<(INodeNum, INodeType, Seq<u8>)>, name: Seq<u8>) -> Option<INodeNum>
    decreases l.len(),
{
    if l.len() == 0 {
        None
    } else if l.last().2 == name {
        Some(l.last().0)
    } else {
        last_named(l.drop_last(), name)
    }
}

/// Two file systems hold the same files with the same data.
pub open spec fn same_files<F: FileSystem>(a: &F, b: &F) -> bool {
    &&& a.spec_root() == b.spec_root()
    &&& forall|i: INodeNum| #[trigger] a.file_data(i) == b.file_data(i)
    &&& forall|i: INodeNum| #[trigger] a.inode_kind(i) == b.inode_kind(i)
}

impl<F: FileSystem> FileSystemManager<F> {
    /// Sets open file `fd` to refer to `inode`.
    fn set_open(&mut self, fd: ProcessFileDescriptor, inode: INodeNum)
        requires
            old(self).wf(),
        ensures
            final(self).wf(),
            final(self).fs == old(self).fs,
            final(self).open_file_count == old(self).open_file_count,
            final(self).directories == old(self).directories,
            final(self).mount_point == old(self).mount_point,
            final(self).mount_count == old(self).mount_count,
            final(self).fd_inode(fd) == Some(inode),
            forall|f: ProcessFileDescriptor| f != fd ==> #[trigger] final(self).fd_inode(f) == old(self).fd_inode(f),
    {
        let ghost old_open = self.open_files@;
        match self.find_open(fd) {
            Some(i) => {
                self.open_files.set(i, (fd, inode));
                proof {
                    assert(self.open_files@ == old_open.update(i as int, (old_open[i as int].0, inode)));
                    lemma_distinct_update(old_open, i as int, inode);
                    assert forall|f: ProcessFileDescriptor| #[trigger] assoc_get(self.open_files@, f) == (if f == fd { Some(inode) } else { assoc_get(old_open, f) }) by {
                        lemma_assoc_get_update(old_open, i as int, inode, f);
                    }
                }
            },
            None => {
                self.open_files.push((fd, inode));
                proof {
                    lemma_distinct_push(old_open, (fd, inode));
                    lemma_assoc_get_none(old_open, fd);
                    assert forall|f: ProcessFileDescriptor| #[trigger] assoc_get(self.open_files@, f) == (match assoc_get(old_open, f) {
                        Some(v) => Some(v),
                        None => if f == fd { Some(inode) } else { None },
                    }) by {
                        lemma_assoc_get_push(old_open, (fd, inode), f);
                    }
                }
            },
        }
    }

    /// Forgets open file `fd`; returns the inode it referred to.
    fn remove_open(&mut self, fd: ProcessFileDescriptor) -> (r: Option<INodeNum>)
        requires
            old(self).wf(),
        ensures
            final(self).wf(),
            final(self).fs == old(self).fs,
            final(self).open_file_count == old(self).open_file_count,
            final(self).directories == old(self).directories,
            final(self).mount_point == old(self).mount_point,
            final(self).mount_count == old(self).mount_count,
            r == old(self).fd_inode(fd),
            final(self).fd_inode(fd) is None,
            forall|f: ProcessFileDescriptor| f != fd ==> #[trigger] final(self).fd_inode(f) == old(self).fd_inode(f),
    {
        let ghost old_open = self.open_files@;
        match self.find_open(fd) {
            Some(i) => {
                proof { lemma_assoc_get_index(old_open, fd, i as int); }
                let (_f, inode) = self.open_files.remove(i);
                proof {
                    lemma_distinct_remove(old_open, i as int);
                    lemma_assoc_get_remove_unique(old_open, i as int);
                }
                Some(inode)
            },
            None => {
                proof { lemma_assoc_get_none(old_open, fd); }
                None
            },
        }
    }

    /// Temporarily open `inode` (for an operation on it).
    fn temp_open(&mut self, inode: INodeNum) -> (r: Result<()>)
        requires
            old(self).wf(),
        ensures
            final(self).wf(),
            same_files(&final(self).fs, &old(self).fs),
            forall|d: INodeNum| #[trigger] final(self).fs.dir_entries(d) == old(self).fs.dir_entries(d),
            final(self).open_files == old(self).open_files,
            final(self).open_file_count == old(self).open_file_count,
            final(self).directories == old(self).directories,
            final(self).mount_point == old(self).mount_point,
            final(self).mount_count == old(self).mount_count,
    {
        self.fs.open(inode)
    }

    /// Close a file opened with `temp_open`: unless a file is open on it, the
    /// file system releases it.
    fn temp_close(&mut self, inode: INodeNum)
        requires
            old(self).wf(),
        ensures
            final(self).wf(),
            same_files(&final(self).fs, &old(self).fs),
            final(self).open_files == old(self).open_files,
            final(self).open_file_count == old(self).open_file_count,
            final(self).directories == old(self).directories,
            final(self).mount_point == old(self).mount_point,
            final(self).mount_count == old(self).mount_count,
    {
        if self.find_count(inode).is_none() {
            self.fs.release(inode);
        }
    }

    /// Records open file `fd` on `inode`.
    fn open_file_handle(&mut self, fd: ProcessFileDescriptor, inode: INodeNum)
        requires
            old(self).wf(),
        ensures
            final(self).wf(),
            final(self).fs == old(self).fs,
            final(self).directories == old(self).directories,
            final(self).mount_point == old(self).mount_point,
            final(self).mount_count == old(self).mount_count,
            final(self).fd_inode(fd) == Some(inode),
            forall|f: ProcessFileDescriptor| f != fd ==> #[trigger] final(self).fd_inode(f) == old(self).fd_inode(f),
            final(self).ref_count(inode) is Some,
    {
        self.inc_ref(inode);
        self.set_open(fd, inode);
    }

    /// Get the root inode.
    pub fn root(&self) -> (r: INodeNum)
        requires
            self.wf(),
        ensures
            r == self.fs.spec_root(),
    {
        self.fs.root()
    }

    /// Where this file system is mounted, or `None` for the root file system.
    pub fn get_mount_point(&self) -> (r: Option<(FileSystemID, INodeNum)>)
        ensures
            r == self.mount_point,
    {
        self.mount_point
    }

    /// Open `inode` as file `fd`.
    pub fn open(&mut self, inode: INodeNum, fd: ProcessFileDescriptor) -> (r: Result<()>)
        requires
            old(self).wf(),
        ensures
            final(self).wf(),
            same_files(&final(self).fs, &old(self).fs),
            final(self).mount_point == old(self).mount_point,
            r is Ok ==> final(self).fd_inode(fd) == Some(inode),
            r is Err ==> final(self).open_files == old(self).open_files,
            forall|f: ProcessFileDescriptor| f != fd ==> #[trigger] final(self).fd_inode(f) == old(self).fd_inode(f),
    {
        self.fs.open(inode)?;
        self.open_file_handle(fd, inode);
        Ok(())
    }

    /// Create file `name` in directory `parent` and open it as file `fd`.
    pub fn create(&mut self, parent: INodeNum, name: &[u8], fd: ProcessFileDescriptor) -> (r: Result<()>)
        requires
            old(self).wf(),
        ensures
            final(self).wf(),
            final(self).fs.spec_root() == old(self).fs.spec_root(),
            final(self).mount_point == old(self).mount_point,
            is_special_name(name@) ==> r matches Err(Error::IsDirectory),
            (r is Ok ==> (final(self).fd_inode(fd) matches Some(ino) && final(self).fs.file_data(ino) == Some(
                Seq::<u8>::empty(),
            ) && forall|i: INodeNum| i != ino ==> #[trigger] final(self).fs.file_data(i) == old(self).fs.file_data(i))),
            r is Err ==> final(self).open_files == old(self).open_files,
            r is Err ==> forall|i: INodeNum| #[trigger] final(self).fs.file_data(i) == old(self).fs.file_data(i),
            forall|f: ProcessFileDescriptor| f != fd ==> #[trigger] final(self).fd_inode(f) == old(self).fd_inode(f),
    {
        if special_name(name) {
            return Err(Error::IsDirectory);
        }
        self.temp_open(parent)?;
        let file = self.fs.create(parent, name);
        self.temp_close(parent);
        let file = file?;
        self.add_to_directory(parent, file, INodeType::File, name);
        self.open_file_handle(fd, file);
        Ok(())
    }

    /// Adds entry `name` for `inode` to the cached entries of directory
    /// `parent`, if they are cached.
    fn add_to_directory(&mut self, parent: INodeNum, inode: INodeNum, kind: INodeType, name: &[u8])
        requires
            old(self).wf(),
        ensures
            final(self).wf(),
            final(self).fs == old(self).fs,
            final(self).open_files == old(self).open_files,
            final(self).open_file_count == old(self).open_file_count,
            final(self).mount_point == old(self).mount_point,
            final(self).mount_count == old(self).mount_count,
            final(self).directories@.len() == old(self).directories@.len(),
            forall|i: int| 0 <= i < final(self).directories@.len() ==> #[trigger] final(self).directories@[i].0 == old(self).directories@[i].0,
    {
        let i = match self.find_dir(parent) {
            Some(i) => i,
            None => return,
        };
        let ghost old_dirs = self.directories@;
        if self.directories[i].1.entries.is_none() || self.directories[i].1.id == u64::MAX {
            return;
        }
        let mut slot = (parent, Directory::new(0));
        self.directories.set_and_swap(i, &mut slot);
        let (key, mut dir) = slot;
        dir.add(inode, kind, name);
        self.directories.set(i, (key, dir));
        proof {
            assert forall|a: int, b: int| 0 <= a < b < self.directories@.len() implies self.directories@[a].0
                != self.directories@[b].0 by {
                assert(self.directories@[a].0 == old_dirs[a].0 && self.directories@[b].0 == old_dirs[b].0);
            }
            assert forall|j: int| 0 <= j < self.directories@.len() implies #[trigger] self.directories@[j].1.wf() by {
                if j != i { assert(self.directories@[j] == old_dirs[j]); }
            }
        }
    }

    /// Close open file `fd`.
    pub fn close(&mut self, fd: ProcessFileDescriptor) -> (r: Result<()>)
        requires
            old(self).wf(),
        ensures
            final(self).wf(),
            same_files(&final(self).fs, &old(self).fs),
            final(self).mount_point == old(self).mount_point,
            final(self).mount_count == old(self).mount_count,
            r is Ok <==> old(self).fd_inode(fd) is Some,
            (r is Err ==> r matches Err(Error::BadFd)),
            final(self).fd_inode(fd) is None,
            forall|f: ProcessFileDescriptor| f != fd ==> #[trigger] final(self).fd_inode(f) == old(self).fd_inode(f),
    {
        let r = self.remove_open(fd);
        let ghost s1 = *self;
        match r {
            None => Err(Error::BadFd),
            Some(inode) => {
                self.dec_ref(inode);
                assert forall|f: ProcessFileDescriptor| f != fd implies #[trigger] self.fd_inode(f) == old(self).fd_inode(f) by {
                    assert(s1.fd_inode(f) == old(self).fd_inode(f));
                }
                assert(self.fd_inode(fd) == s1.fd_inode(fd));
                Ok(())
            },
        }
    }

    /// No file is open on the file system and nothing is mounted on it.
    pub open spec fn is_idle(&self) -> bool {
        self.open_file_count@.len() == 0 && self.mount_count == 0
    }

    /// Whether no file is open on the file system and nothing is mounted on it.
    pub fn can_be_safely_unmounted(&self) -> (r: bool)
        ensures
            r == self.is_idle(),
    {
        self.open_file_count.len() == 0 && self.mount_count == 0
    }

    /// Write buffered changes of the file system to its device.
    pub fn sync(&mut self) -> (r: Result<()>)
        requires
            old(self).wf(),
        ensures
            final(self).wf(),
            same_files(&final(self).fs, &old(self).fs),
            final(self).open_files == old(self).open_files,
            final(self).mount_point == old(self).mount_point,
            final(self).mount_count == old(self).mount_count,
            final(self).open_file_count == old(self).open_file_count,
    {
        self.fs.sync()
    }

    /// Create directory `name` in directory `parent`.
    pub fn mkdir(&mut self, parent: INodeNum, name: &[u8]) -> (r: Result<()>)
        requires
            old(self).wf(),
        ensures
            final(self).wf(),
            final(self).fs.spec_root() == old(self).fs.spec_root(),
            forall|i: INodeNum| #[trigger] final(self).fs.file_data(i) == old(self).fs.file_data(i),
            final(self).open_files == old(self).open_files,
            final(self).mount_point == old(self).mount_point,
            final(self).mount_count == old(self).mount_count,
            is_special_name(name@) ==> r matches Err(Error::Exists),
    {
        if special_name(name) {
            return Err(Error::Exists);
        }
        self.temp_open(parent)?;
        let result = self.fs.mkdir(parent, name);
        self.temp_close(parent);
        let inode = result?;
        self.add_to_directory(parent, inode, INodeType::Directory, name);
        self.insert_directory(inode, Directory::empty(parent));
        Ok(())
    }

    /// Caches directory `inode` as `dir`, replacing what was cached for it.
    fn insert_directory(&mut self, inode: INodeNum, dir: Directory)
        requires
            old(self).wf(),
            dir.wf(),
        ensures
            final(self).wf(),
            assoc_get(final(self).directories@, inode) == Some(dir),
            forall|k: INodeNum| k != inode ==> #[trigger] assoc_get(final(self).directories@, k) == assoc_get(old(self).directories@, k),
            final(self).fs == old(self).fs,
            final(self).open_files == old(self).open_files,
            final(self).open_file_count == old(self).open_file_count,
            final(self).mount_point == old(self).mount_point,
            final(self).mount_count == old(self).mount_count,
    {
        let ghost old_dirs = self.directories@;
        match self.find_dir(inode) {
            Some(i) => {
                self.directories.set(i, (inode, dir));
                proof {
                    assert(self.directories@ == old_dirs.update(i as int, (old_dirs[i as int].0, dir)));
                    assert forall|k: INodeNum| #[trigger] assoc_get(self.directories@, k) == (if k == inode { Some(dir) } else { assoc_get(old_dirs, k) }) by {
                        lemma_assoc_get_update(old_dirs, i as int, dir, k);
                    }
                    lemma_distinct_update(old_dirs, i as int, dir);
                    assert forall|j: int| 0 <= j < self.directories@.len() implies #[trigger] self.directories@[j].1.wf() by {
                        if j != i { assert(self.directories@[j] == old_dirs[j]); }
                    }
                }
            },
            None => {
                self.directories.push((inode, dir));
                proof {
                    lemma_assoc_get_none(old_dirs, inode);
                    assert forall|k: INodeNum| #[trigger] assoc_get(self.directories@, k) == (if k == inode { Some(dir) } else { assoc_get(old_dirs, k) }) by {
                        lemma_assoc_get_push(old_dirs, (inode, dir), k);
                    }
                    lemma_distinct_push(old_dirs, (inode, dir));
                    assert forall|j: int| 0 <= j < self.directories@.len() implies #[trigger] self.directories@[j].1.wf() by {
                        if j < old_dirs.len() { assert(self.directories@[j] == old_dirs[j]); }
                    }
                }
            },
        }
    }

    /// Read from open file `fd`, at byte `offset`.
    pub fn read(&mut self, fd: ProcessFileDescriptor, offset: u64, buf: &mut [u8]) -> (r: Result<usize>)
        requires
            old(self).wf(),
        ensures
            final(self).wf(),
            same_files(&final(self).fs, &old(self).fs),
            final(self).open_files == old(self).open_files,
            final(self).open_file_count == old(self).open_file_count,
            final(self).mount_point == old(self).mount_point,
            final(self).mount_count == old(self).mount_count,
            final(buf)@.len() == old(buf)@.len(),
            old(self).fd_inode(fd) is None ==> r matches Err(Error::BadFd),
            (r matches Ok(n) ==> n <= old(buf)@.len() && (old(self).fd_inode(fd) matches Some(ino) && (old(self).fs.file_data(
                ino,
            ) matches Some(d) ==> n == crate::vfs::read_count(d.len() as int, offset as int, old(buf)@.len() as int)
                && final(buf)@.subrange(0, n as int) == crate::vfs::read_range(d, offset as int, n as int)))),
    {
        let inode = match self.open_inode(fd) {
            Some(i) => i,
            None => return Err(Error::BadFd),
        };
        self.fs.read(inode, offset, buf)
    }

    /// Write to open file `fd`, at byte `offset`.
    pub fn write(&mut self, fd: ProcessFileDescriptor, offset: u64, buf: &[u8]) -> (r: Result<usize>)
        requires
            old(self).wf(),
        ensures
            final(self).wf(),
            final(self).fs.spec_root() == old(self).fs.spec_root(),
            forall|i: INodeNum| #[trigger] final(self).fs.inode_kind(i) == old(self).fs.inode_kind(i),
            final(self).open_files == old(self).open_files,
            final(self).open_file_count == old(self).open_file_count,
            final(self).mount_point == old(self).mount_point,
            final(self).mount_count == old(self).mount_count,
            old(self).fd_inode(fd) is None ==> r matches Err(Error::BadFd),
            match old(self).fd_inode(fd) {
                Some(ino) => forall|i: INodeNum| i != ino ==> #[trigger] final(self).fs.file_data(i) == old(self).fs.file_data(i),
                None => forall|i: INodeNum| #[trigger] final(self).fs.file_data(i) == old(self).fs.file_data(i),
            },
            (r matches Ok(n) ==> n == buf@.len() && (old(self).fd_inode(fd) matches Some(ino) && (old(self).fs.file_data(ino) matches Some(d)
                ==> final(self).fs.file_data(ino) == Some(crate::vfs::write_at(d, offset as int, buf@))))),
            r is Err ==> forall|i: INodeNum| #[trigger] final(self).fs.file_data(i) == old(self).fs.file_data(i),
    {
        let inode = match self.open_inode(fd) {
            Some(i) => i,
            None => return Err(Error::BadFd),
        };
        self.fs.write(inode, offset, buf)
    }

    /// Information about open file `fd`.
    pub fn fstat(&mut self, fd: ProcessFileDescriptor) -> (r: Result<FileInfo>)
        requires
            old(self).wf(),
        ensures
            final(self).wf(),
            same_files(&final(self).fs, &old(self).fs),
            final(self).open_files == old(self).open_files,
            final(self).open_file_count == old(self).open_file_count,
            final(self).mount_point == old(self).mount_point,
            final(self).mount_count == old(self).mount_count,
            old(self).fd_inode(fd) is None ==> r matches Err(Error::BadFd),
            (r matches Ok(info) ==> (old(self).fd_inode(fd) matches Some(ino) && old(self).fs.inode_kind(ino) == Some(info.kind)
                && (old(self).fs.file_data(ino) matches Some(d) ==> info.size == d.len()))),
    {
        let inode = match self.open_inode(fd) {
            Some(i) => i,
            None => return Err(Error::BadFd),
        };
        self.fs.stat(inode)
    }

    /// The size of open file `fd`.
    pub fn size_of_file(&mut self, fd: ProcessFileDescriptor) -> (r: Result<u64>)
        requires
            old(self).wf(),
        ensures
            final(self).wf(),
            same_files(&final(self).fs, &old(self).fs),
            final(self).open_files == old(self).open_files,
            final(self).open_file_count == old(self).open_file_count,
            final(self).mount_point == old(self).mount_point,
            final(self).mount_count == old(self).mount_count,
            old(self).fd_inode(fd) is None ==> r matches Err(Error::BadFd),
            (r matches Ok(size) ==> (old(self).fd_inode(fd) matches Some(ino) && (old(self).fs.file_data(ino) matches Some(d) ==> size == d.len()))),
    {
        Ok(self.fstat(fd)?.size)
    }

    /// The file system mounted on directory `dir`, if any.
    pub fn mount_point_at(&self, dir: INodeNum) -> (r: Option<FileSystemID>)
        ensures
            r == match assoc_get(self.directories@, dir) {
                Some(d) => d.mount,
                None => None,
            },
    {
        match self.find_dir(dir) {
            Some(i) => {
                proof { lemma_assoc_get_index(self.directories@, dir, i as int); }
                self.directories[i].1.mount
            },
            None => {
                proof { lemma_assoc_get_none(self.directories@, dir); }
                None
            },
        }
    }

    /// Truncate open file `fd` to `size` bytes.
    pub fn ftruncate(&mut self, fd: ProcessFileDescriptor, size: u64) -> (r: Result<()>)
        requires
            old(self).wf(),
        ensures
            final(self).wf(),
            final(self).fs.spec_root() == old(self).fs.spec_root(),
            forall|i: INodeNum| #[trigger] final(self).fs.inode_kind(i) == old(self).fs.inode_kind(i),
            final(self).open_files == old(self).open_files,
            final(self).open_file_count == old(self).open_file_count,
            final(self).mount_point == old(self).mount_point,
            final(self).mount_count == old(self).mount_count,
            old(self).fd_inode(fd) is None ==> r matches Err(Error::BadFd),
            (r is Ok ==> (old(self).fd_inode(fd) matches Some(ino) && (old(self).fs.file_data(ino) matches Some(d)
                ==> final(self).fs.file_data(ino) == Some(crate::vfs::truncate_to(d, size as int))))),
            match old(self).fd_inode(fd) {
                Some(ino) => forall|i: INodeNum| i != ino ==> #[trigger] final(self).fs.file_data(i) == old(self).fs.file_data(i),
                None => forall|i: INodeNum| #[trigger] final(self).fs.file_data(i) == old(self).fs.file_data(i),
            },
            r is Err ==> forall|i: INodeNum| #[trigger] final(self).fs.file_data(i) == old(self).fs.file_data(i),
    {
        let inode = match self.open_inode(fd) {
            Some(i) => i,
            None => return Err(Error::BadFd),
        };
        self.fs.truncate(inode, size)
    }
}

impl<F: FileSystem> FileSystemManager<F> {
    /// What an operation that touches only the cached directories and the
    /// file system keeps.
    pub open spec fn keeps_files(&self, old: &Self) -> bool {
        &&& self.wf()
        &&& self.open_files == old.open_files
        &&& self.open_file_count == old.open_file_count
        &&& self.mount_point == old.mount_point
        &&& self.mount_count == old.mount_count
        &&& self.fs.spec_root() == old.fs.spec_root()
    }

    /// A manager for file system `fs`, mounted at `mount_point` (or the root
    /// file system when `None`).
    pub fn new(fs: F, mount_point: Option<(FileSystemID, INodeNum)>) -> (r: Self)
        requires
            fs.fs_inv(),
        ensures
            r.wf(),
            same_files(&r.fs, &fs),
            r.mount_point == mount_point,
            r.mount_count == 0,
            r.open_files@.len() == 0,
            r.open_file_count@.len() == 0,
    {
        let root_ino = fs.root();
        let mut me = Self {
            fs,
            open_file_count: Vec::new(),
            open_files: Vec::new(),
            directories: Vec::new(),
            mount_point,
            mount_count: 0,
        };
        me.insert_directory(root_ino, Directory::new(root_ino));
        let _ = me.lookup(root_ino, &[120u8]);
        me
    }

    /// Reads the entries of cached directory `i` (inode `dir_inode`) from the
    /// file system, if they are not cached yet. Returns the inodes of the
    /// subdirectories read.
    fn fill_directory(&mut self, i: usize, dir_inode: INodeNum) -> (r: Result<Vec<INodeNum>>)
        requires
            old(self).wf(),
            i < old(self).directories@.len(),
            old(self).directories@[i as int].0 == dir_inode,
        ensures
            final(self).keeps_files(old(self)),
            same_files(&final(self).fs, &old(self).fs),
            final(self).directories@.len() == old(self).directories@.len(),
            forall|j: int| 0 <= j < final(self).directories@.len() ==> #[trigger] final(self).directories@[j].0 == old(self).directories@[j].0,
            final(self).directories@[i as int].1.parent == old(self).directories@[i as int].1.parent,
            r is Ok ==> final(self).directories@[i as int].1.entries is Some,
            old(self).directories@[i as int].1.entries is Some ==> *final(self) == *old(self) && (r matches Ok(v) && v@.len()
                == 0),
            r is Err ==> final(self).directories == old(self).directories,
            old(self).directories@[i as int].1.entries is None && r is Ok ==> (old(self).fs.dir_entries(dir_inode) matches Some(
                l,
            ) && forall|n: Seq<u8>| #[trigger] final(self).directories@[i as int].1.spec_lookup(n) == last_named(l, n)),
    {
        if self.directories[i].1.entries.is_some() {
            return Ok(Vec::new());
        }
        self.temp_open(dir_inode)?;
        let entries = self.fs.readdir(dir_inode);
        self.temp_close(dir_inode);
        let entries = entries?;
        let ghost listing = raw_listing(entries@);
        assert(old(self).fs.dir_entries(dir_inode) == Some(listing));
        let ghost old_dirs = self.directories@;
        assert(old_dirs[i as int].1.wf());
        let mut slot = (dir_inode, Directory::new(0));
        self.directories.set_and_swap(i, &mut slot);
        let (key, mut dir) = slot;
        dir.entries = Some(Vec::new());
        assert(dir.entries_view().len() == 0);
        assert(dir.lookup_view() == old_dirs[i as int].1.lookup_view());
        proof {
            assert forall|n: Seq<u8>| #[trigger] dir.spec_lookup(n) == last_named(listing.take(0), n) by {
                lemma_assoc_get_none(dir.lookup_view(), n);
            }
        }
        let mut new_directories: Vec<INodeNum> = Vec::new();
        let mut k: usize = 0;
        while k < entries.len()
            invariant
                i < old_dirs.len(),
                dir.wf(),
                dir.entries is Some,
                dir.parent == old_dirs[i as int].1.parent,
                k <= entries@.len(),
                listing == raw_listing(entries@),
                dir.id == k,
                forall|j: int| 0 <= j < dir.entries_view().len() ==> #[trigger] dir.entries_view()[j].0 == j,
                dir.entries_view().len() == k,
                forall|j: int| 0 <= j < k ==> #[trigger] dir.entries_view()[j].1.inode == entries@[j].inode,
                forall|n: Seq<u8>| #[trigger] assoc_get(dir.lookup_view(), n) matches Some(id) ==> id < k,
                forall|n: Seq<u8>| #[trigger] dir.spec_lookup(n) == last_named(listing.take(k as int), n),
            decreases entries@.len() - k,
        {
            if entries[k].kind == INodeType::Directory {
                new_directories.push(entries[k].inode);
            }
            let ghost before = dir;
            assert(dir.id < u64::MAX);
            if dir.id < u64::MAX {
                dir.add(entries[k].inode, entries[k].kind, entries[k].name.as_slice());
            }
            proof {
                let nm = entries@[k as int].name@;
                let ev0 = before.entries_view();
                let ev1 = dir.entries_view();
                let newe = (k as u64, EntryView { kind: entries@[k as int].kind, inode: entries@[k as int].inode, name: nm });
                assert(ev1 == ev0.push(newe));
                assert(listing.take(k + 1).drop_last() =~= listing.take(k as int));
                assert(listing.take(k + 1).last() == (entries@[k as int].inode, entries@[k as int].kind, nm));
                assert forall|n: Seq<u8>| #[trigger] dir.spec_lookup(n) == last_named(listing.take(k + 1), n) by {
                    if n == nm {
                        assert(assoc_get(dir.lookup_view(), n) == Some(k as u64));
                        assert forall|j: int| 0 <= j < k implies ev1[j].0 != k as u64 by {
                            assert(ev1[j] == ev0[j]);
                        }
                        lemma_assoc_get_index(ev1, k as u64, k as int);
                    } else {
                        assert(before.spec_lookup(n) == last_named(listing.take(k as int), n));
                        assert(assoc_get(dir.lookup_view(), n) == assoc_get(before.lookup_view(), n));
                        match assoc_get(before.lookup_view(), n) {
                            Some(id) => {
                                assert(id < k);
                                lemma_assoc_get_push(ev0, newe, id);
                            },
                            None => {},
                        }
                    }
                }
                assert forall|n: Seq<u8>| #[trigger] assoc_get(dir.lookup_view(), n) matches Some(id) ==> id < k + 1 by {
                    if n != nm {
                        assert(assoc_get(dir.lookup_view(), n) == assoc_get(before.lookup_view(), n));
                    }
                }
                assert forall|j: int| 0 <= j < k + 1 implies #[trigger] dir.entries_view()[j].1.inode == entries@[j].inode by {
                    if j < k {
                        assert(ev1[j] == ev0[j]);
                    }
                }
            }
            k = k + 1;
        }
        proof {
            assert(listing.take(k as int) =~= listing);
        }
        let ghost filled = dir;
        self.directories.set(i, (key, dir));
        proof {
            assert(self.directories@[i as int].1 == filled);
            assert forall|n: Seq<u8>| #[trigger] self.directories@[i as int].1.spec_lookup(n) == last_named(listing, n) by {
                assert(filled.spec_lookup(n) == last_named(listing.take(k as int), n));
            }
            assert forall|a: int, b: int| 0 <= a < b < self.directories@.len() implies self.directories@[a].0
                != self.directories@[b].0 by {
                assert(self.directories@[a].0 == old_dirs[a].0 && self.directories@[b].0 == old_dirs[b].0);
            }
            assert forall|j: int| 0 <= j < self.directories@.len() implies #[trigger] self.directories@[j].1.wf() by {
                if j != i { assert(self.directories@[j] == old_dirs[j]); }
            }
        }
        Ok(new_directories)
    }

    /// The inode of entry `name` of directory `dir_inode`, reading and caching
    /// the directory's entries when needed; "" and "." name the directory
    /// itself and ".." its parent.
    pub fn lookup(&mut self, dir_inode: INodeNum, name: &[u8]) -> (r: Result<INodeNum>)
        requires
            old(self).wf(),
        ensures
            final(self).keeps_files(old(self)),
            same_files(&final(self).fs, &old(self).fs),
            (name@.len() == 0 || name@ == seq![46u8]) ==> r == Ok::<INodeNum, Error>(dir_inode),
            !(name@.len() == 0 || name@ == seq![46u8]) && assoc_get(old(self).directories@, dir_inode) is None ==> r matches Err(
                Error::NotDirectory,
            ),
            (name@ == seq![46u8, 46u8] ==> (assoc_get(old(self).directories@, dir_inode) matches Some(d) ==> r
                == Ok::<INodeNum, Error>(d.parent))),
            !(name@.len() == 0 || name@ == seq![46u8] || name@ == seq![46u8, 46u8]) ==> (assoc_get(
                old(self).directories@,
                dir_inode,
            ) matches Some(d) ==> (d.entries is Some ==> *final(self) == *old(self) && match d.spec_lookup(name@) {
                Some(ino) => r == Ok::<INodeNum, Error>(ino),
                None => r matches Err(Error::NotFound),
            })),
            !(name@.len() == 0 || name@ == seq![46u8] || name@ == seq![46u8, 46u8]) ==> (assoc_get(
                old(self).directories@,
                dir_inode,
            ) matches Some(d) ==> (d.entries is None ==> {
                &&& r matches Ok(ino) ==> (old(self).fs.dir_entries(dir_inode) matches Some(l) && last_named(l, name@) == Some(ino))
                &&& (old(self).fs.dir_entries(dir_inode) matches Some(l) && last_named(l, name@) is None) ==> r is Err
            })),
            !(name@.len() == 0 || name@ == seq![46u8] || name@ == seq![46u8, 46u8]) ==> (assoc_get(
                final(self).directories@,
                dir_inode,
            ) matches Some(d) ==> (d.entries is Some ==> match d.spec_lookup(name@) {
                Some(ino) => r == Ok::<INodeNum, Error>(ino),
                None => r matches Err(Error::NotFound),
            })),
    {
        if name.len() == 0 || (name.len() == 1 && name[0] == 46) {
            assert(name@.len() == 1 ==> name@ =~= seq![46u8]);
            return Ok(dir_inode);
        }
        assert(name@ != seq![46u8]);
        let i = match self.find_dir(dir_inode) {
            Some(i) => i,
            None => {
                proof { lemma_assoc_get_none(self.directories@, dir_inode); }
                return Err(Error::NotDirectory);
            },
        };
        proof { lemma_assoc_get_index(self.directories@, dir_inode, i as int); }
        if name.len() == 2 && name[0] == 46 && name[1] == 46 {
            assert(name@ =~= seq![46u8, 46u8]);
            return Ok(self.directories[i].1.parent);
        }
        assert(name@ != seq![46u8, 46u8]);
        let ghost d_before = self.directories@;
        let new_directories = self.fill_directory(i, dir_inode)?;
        let ghost filled = self.directories@[i as int].1;
        proof {
            assert forall|j: int| 0 <= j < i implies self.directories@[j].0 != dir_inode by {
                assert(self.directories@[j].0 == d_before[j].0);
            }
            lemma_assoc_get_index(self.directories@, dir_inode, i as int);
        }
        let inode = match self.directories[i].1.lookup_inode(name) {
            Some(inode) => inode,
            None => return Err(Error::NotFound),
        };
        let mut k: usize = 0;
        let ghost s0 = *self;
        while k < new_directories.len()
            invariant
                self.keeps_files(&s0),
                same_files(&self.fs, &s0.fs),
                new_directories@.len() == 0 ==> *self == s0,
                (assoc_get(self.directories@, dir_inode) matches Some(d) && d.entries is Some) ==> assoc_get(self.directories@, dir_inode) == Some(filled),
            decreases new_directories@.len() - k,
        {
            self.insert_directory(new_directories[k], Directory::new(dir_inode));
            k = k + 1;
        }
        Ok(inode)
    }

    /// Mount file system `fs` on directory `dir`, which must be empty.
    pub fn mount(&mut self, dir: INodeNum, fs: FileSystemID) -> (r: Result<()>)
        requires
            old(self).wf(),
        ensures
            final(self).wf(),
            same_files(&final(self).fs, &old(self).fs),
            final(self).open_files == old(self).open_files,
            final(self).open_file_count == old(self).open_file_count,
            final(self).mount_point == old(self).mount_point,
            r is Ok ==> final(self).mount_count == old(self).mount_count + 1 && final(self).mount_point_of(dir) == Some(fs),
            r is Err ==> final(self).mount_count == old(self).mount_count,
    {
        let _ = self.lookup(dir, &[120u8]);
        let i = match self.find_dir(dir) {
            Some(i) => i,
            None => return Err(Error::NotDirectory),
        };
        match &self.directories[i].1.entries {
            None => return Err(Error::io("failed to read directory entries")),
            Some(entries) => {
                if entries.len() > 0 {
                    return Err(Error::NotEmpty);
                }
            },
        }
        if self.directories[i].1.mount.is_some() {
            return Err(Error::NotEmpty);
        }
        if self.mount_count == u32::MAX {
            return Err(Error::NoSpace);
        }
        let ghost old_dirs = self.directories@;
        assert(old_dirs[i as int].1.wf());
        let mut slot = (dir, Directory::new(0));
        self.directories.set_and_swap(i, &mut slot);
        let (key, mut d) = slot;
        d.mount = Some(fs);
        assert(d.entries_view() == old_dirs[i as int].1.entries_view());
        assert(d.lookup_view() == old_dirs[i as int].1.lookup_view());
        assert(d.wf());
        self.directories.set(i, (key, d));
        self.mount_count = self.mount_count + 1;
        proof {
            assert forall|a: int, b: int| 0 <= a < b < self.directories@.len() implies self.directories@[a].0
                != self.directories@[b].0 by {
                assert(self.directories@[a].0 == old_dirs[a].0 && self.directories@[b].0 == old_dirs[b].0);
            }
            assert forall|j: int| 0 <= j < self.directories@.len() implies #[trigger] self.directories@[j].1.wf() by {
                if j != i { assert(self.directories@[j] == old_dirs[j]); }
            }
            lemma_assoc_get_index(self.directories@, dir, i as int);
        }
        Ok(())
    }

    /// The file system mounted on directory `dir`, as a specification sees it.
    pub open spec fn mount_point_of(&self, dir: INodeNum) -> Option<FileSystemID> {
        match assoc_get(self.directories@, dir) {
            Some(d) => d.mount,
            None => None,
        }
    }

    /// Unmount whatever is mounted on directory `dir`.
    pub fn unmount(&mut self, dir: INodeNum) -> (r: Result<()>)
        requires
            old(self).wf(),
        ensures
            final(self).wf(),
            final(self).fs == old(self).fs,
            final(self).open_files == old(self).open_files,
            final(self).open_file_count == old(self).open_file_count,
            final(self).mount_point == old(self).mount_point,
            assoc_get(old(self).directories@, dir) is None ==> r matches Err(Error::NotDirectory),
            (assoc_get(old(self).directories@, dir) is Some && old(self).mount_point_of(dir) is None) ==> r matches Err(Error::NotMounted),
            r is Ok <==> old(self).mount_point_of(dir) is Some,
            r is Ok ==> final(self).mount_point_of(dir) is None,
    {
        let i = match self.find_dir(dir) {
            Some(i) => i,
            None => {
                proof { lemma_assoc_get_none(self.directories@, dir); }
                return Err(Error::NotDirectory);
            },
        };
        proof { lemma_assoc_get_index(self.directories@, dir, i as int); }
        if self.directories[i].1.mount.is_none() {
            return Err(Error::NotMounted);
        }
        let ghost old_dirs = self.directories@;
        assert(old_dirs[i as int].1.wf());
        let mut slot = (dir, Directory::new(0));
        self.directories.set_and_swap(i, &mut slot);
        let (key, mut d) = slot;
        d.mount = None;
        assert(d.entries_view() == old_dirs[i as int].1.entries_view());
        assert(d.lookup_view() == old_dirs[i as int].1.lookup_view());
        assert(d.wf());
        self.directories.set(i, (key, d));
        self.mount_count = self.mount_count.saturating_sub(1);
        proof {
            assert forall|a: int, b: int| 0 <= a < b < self.directories@.len() implies self.directories@[a].0
                != self.directories@[b].0 by {
                assert(self.directories@[a].0 == old_dirs[a].0 && self.directories@[b].0 == old_dirs[b].0);
            }
            assert forall|j: int| 0 <= j < self.directories@.len() implies #[trigger] self.directories@[j].1.wf() by {
                if j != i { assert(self.directories@[j] == old_dirs[j]); }
            }
            assert forall|j: int| 0 <= j < i implies self.directories@[j].0 != dir by {
                assert(self.directories@[j] == old_dirs[j]);
            }
            lemma_assoc_get_index(self.directories@, dir, i as int);
        }
        Ok(())
    }

    /// The path that symbolic link `inode` points to.
    pub fn read_link(&mut self, inode: INodeNum) -> (r: Result<Vec<u8>>)
        requires
            old(self).wf(),
        ensures
            final(self).keeps_files(old(self)),
            same_files(&final(self).fs, &old(self).fs),
            final(self).directories == old(self).directories,
            r is Ok ==> old(self).fs.inode_kind(inode) == Some(INodeType::Link),
    {
        self.temp_open(inode)?;
        let st = self.fs.stat(inode);
        let result = match st {
            Err(e) => Err(e),
            Ok(st) => {
                if st.kind != INodeType::Link {
                    Err(Error::NotLink)
                } else {
                    self.fs.readlink(inode)
                }
            },
        };
        self.temp_close(inode);
        result
    }

    /// The type of `inode`.
    pub fn inode_type(&mut self, inode: INodeNum) -> (r: Result<INodeType>)
        requires
            old(self).wf(),
        ensures
            final(self).keeps_files(old(self)),
            same_files(&final(self).fs, &old(self).fs),
            final(self).directories == old(self).directories,
            (r matches Ok(t) ==> old(self).fs.inode_kind(inode) == Some(t)),
    {
        self.temp_open(inode)?;
        let st = self.fs.stat(inode);
        self.temp_close(inode);
        Ok(st?.kind)
    }

    /// Removes entry `name` from the cached entries of directory `i`, if they are cached.
    fn uncache_entry(&mut self, i: usize, name: &[u8])
        requires
            old(self).wf(),
            i < old(self).directories@.len(),
        ensures
            final(self).wf(),
            final(self).fs == old(self).fs,
            final(self).open_files == old(self).open_files,
            final(self).open_file_count == old(self).open_file_count,
            final(self).mount_point == old(self).mount_point,
            final(self).mount_count == old(self).mount_count,
    {
        if self.directories[i].1.entries.is_none() {
            return;
        }
        let ghost old_dirs = self.directories@;
        let key = self.directories[i].0;
        let mut slot = (key, Directory::new(0));
        self.directories.set_and_swap(i, &mut slot);
        let (key, mut d) = slot;
        d.remove(name);
        self.directories.set(i, (key, d));
        proof {
            assert forall|a: int, b: int| 0 <= a < b < self.directories@.len() implies self.directories@[a].0
                != self.directories@[b].0 by {
                assert(self.directories@[a].0 == old_dirs[a].0 && self.directories@[b].0 == old_dirs[b].0);
            }
            assert forall|j: int| 0 <= j < self.directories@.len() implies #[trigger] self.directories@[j].1.wf() by {
                if j != i { assert(self.directories@[j] == old_dirs[j]); }
            }
        }
    }

    /// Remove file `name` from directory `parent`.
    pub fn unlink(&mut self, parent: INodeNum, name: &[u8]) -> (r: Result<()>)
        requires
            old(self).wf(),
        ensures
            final(self).keeps_files(old(self)),
            assoc_get(old(self).directories@, parent) is None ==> r matches Err(Error::NotFound),
    {
        let i = match self.find_dir(parent) {
            Some(i) => i,
            None => {
                proof { lemma_assoc_get_none(self.directories@, parent); }
                return Err(Error::NotFound);
            },
        };
        proof { lemma_assoc_get_index(self.directories@, parent, i as int); }
        self.temp_open(parent)?;
        let result = self.fs.unlink(parent, name);
        self.temp_close(parent);
        self.uncache_entry(i, name);
        result
    }

    /// Remove empty directory `name` from directory `parent`.
    pub fn rmdir(&mut self, parent: INodeNum, name: &[u8]) -> (r: Result<()>)
        requires
            old(self).wf(),
        ensures
            final(self).keeps_files(old(self)),
            forall|i: INodeNum| #[trigger] final(self).fs.file_data(i) == old(self).fs.file_data(i),
            assoc_get(old(self).directories@, parent) is None ==> r matches Err(Error::NotFound),
    {
        let i = match self.find_dir(parent) {
            Some(i) => i,
            None => {
                proof { lemma_assoc_get_none(self.directories@, parent); }
                return Err(Error::NotFound);
            },
        };
        proof { lemma_assoc_get_index(self.directories@, parent, i as int); }
        self.temp_open(parent)?;
        let result = self.fs.rmdir(parent, name);
        self.temp_close(parent);
        self.uncache_entry(i, name);
        result
    }

    /// Write the directory records of directory file `dir` into `output`, from
    /// entry id `*offset` on; see [`Directory::getdents`].
    pub fn getdents(&mut self, dir: ProcessFileDescriptor, offset: &mut u64, output: &mut [u8]) -> (r: Result<usize>)
        requires
            old(self).wf(),
        ensures
            final(self).keeps_files(old(self)),
            same_files(&final(self).fs, &old(self).fs),
            final(output)@.len() == old(output)@.len(),
            old(self).fd_inode(dir) is None ==> r matches Err(Error::BadFd),
    {
        let inode = match self.open_inode(dir) {
            Some(i) => i,
            None => return Err(Error::BadFd),
        };
        let _ = self.lookup(inode, &[120u8]);
        let i = match self.find_dir(inode) {
            Some(i) => i,
            None => return Err(Error::NotDirectory),
        };
        if self.directories[i].1.entries.is_none() {
            return Err(Error::io("failed to read directory entries"));
        }
        self.directories[i].1.getdents(offset, output)
    }

    /// Make a hard link `name` in directory `parent` to `source`, which must not
    /// be a directory.
    pub fn link(&mut self, source: INodeNum, parent: INodeNum, name: &[u8]) -> (r: Result<()>)
        requires
            old(self).wf(),
        ensures
            final(self).keeps_files(old(self)),
            forall|i: INodeNum| #[trigger] final(self).fs.file_data(i) == old(self).fs.file_data(i),
            is_special_name(name@) ==> r matches Err(Error::Exists),
    {
        if special_name(name) {
            return Err(Error::Exists);
        }
        self.temp_open(source)?;
        let source_info = match self.fs.stat(source) {
            Ok(info) => info,
            Err(e) => {
                self.temp_close(source);
                return Err(e);
            },
        };
        if source_info.kind == INodeType::Directory {
            self.temp_close(source);
            return Err(Error::IsDirectory);
        }
        let result = match self.temp_open(parent) {
            Err(e) => Err(e),
            Ok(()) => {
                let r = self.fs.link(source, parent, name);
                self.temp_close(parent);
                r
            },
        };
        self.temp_close(source);
        result?;
        self.add_to_directory(parent, source, INodeType::File, name);
        Ok(())
    }

    /// Make a symbolic link `name` in directory `parent` to path `link`.
    pub fn symlink(&mut self, link: &[u8], parent: INodeNum, name: &[u8]) -> (r: Result<()>)
        requires
            old(self).wf(),
        ensures
            final(self).keeps_files(old(self)),
            forall|i: INodeNum| #[trigger] final(self).fs.file_data(i) == old(self).fs.file_data(i),
            is_special_name(name@) ==> r matches Err(Error::Exists),
    {
        if special_name(name) {
            return Err(Error::Exists);
        }
        self.temp_open(parent)?;
        let result = self.fs.symlink(link, parent, name);
        self.temp_close(parent);
        let symlink_inode = result?;
        self.add_to_directory(parent, symlink_inode, INodeType::Link, name);
        Ok(())
    }

    /// Rename entry `source_name` of directory `source_parent` to `dest_name` in
    /// directory `dest_parent`, by linking the new name and unlinking the old.
    pub fn rename(
        &mut self,
        source_parent: INodeNum,
        source_name: &[u8],
        dest_parent: INodeNum,
        dest_name: &[u8],
    ) -> (r: Result<()>)
        requires
            old(self).wf(),
        ensures
            final(self).keeps_files(old(self)),
            is_special_name(dest_name@) ==> r is Err,
    {
        let source_inode = self.lookup(source_parent, source_name)?;
        self.link(source_inode, dest_parent, dest_name)?;
        self.unlink(source_parent, source_name)
    }
}

} // verus!
