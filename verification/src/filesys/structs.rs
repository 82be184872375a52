//! Mount points and the routing of paths to the file systems mounted there.
use vstd::prelude::*;

use crate::bytes::bytes_eq;

verus! {

/// An open file, known by its path.
pub struct File {
    pub pathname: Vec<u8>,
}

/// What a file system offers the virtual file system; paths are relative to
/// the file system's root.
pub trait FileSystem {
    fn open(&self, path: &[u8]) -> Option<File>;
    fn close(&self, file: &File) -> bool;
    fn read(&self, file: &File, buffer: &mut [u8], amount: u32) -> u32;
    fn write(&self, file: &File, buffer: &mut [u8], amount: u32) -> u32;
    fn create(&mut self, path: &[u8], name: &[u8]) -> bool;
    fn delete(&self, path: &[u8]) -> bool;
    fn list_dir(&self, path: &[u8]) -> Option<Vec<Vec<u8>>>;
    fn mkdir(&mut self, path: &[u8], name: &[u8]) -> bool;
    fn rmdir(&mut self, path: &[u8], name: &[u8]) -> bool;
}

/// A file system mounted at `path`.
pub struct MountPoint<F> {
    pub path: Vec<u8>,
    pub fs: F,
}

/// The root file system and the file systems mounted over it.
pub struct VirtualFileSystem<F> {
    pub root_fs: F,
    pub mount_points: Vec<MountPoint<F>>,
}

/// Whether `p` is a prefix of `s`.
pub open spec fn is_prefix(p: Seq<u8>, s: Seq<u8>) -> bool {
    p.len() <= s.len() && s.take(p.len() as int) == p
}

/// Among the first `n` of `paths`, the index of the first of the longest that
/// are prefixes of `s`.
pub open spec fn longest_mount(paths: Seq<Seq<u8>>, s: Seq<u8>, n: int) -> Option<int>
    decreases n,
{
    if n <= 0 {
        None
    } else {
        let b = longest_mount(paths, s, n - 1);
        if is_prefix(paths[n - 1], s) && (b matches Some(i) ==> paths[n - 1].len() > paths[i].len()) {
            Some(n - 1)
        } else {
            b
        }
    }
}

/// `s` with every occurrence of the nonempty `p` removed, scanning from the
/// left; `s` itself if `p` is empty.
pub open spec fn remove_all(s: Seq<u8>, p: Seq<u8>) -> Seq<u8>
    decreases s.len(),
{
    if p.len() == 0 || s.len() < p.len() {
        s
    } else if s.take(p.len() as int) == p {
        remove_all(s.skip(p.len() as int), p)
    } else {
        seq![s[0]] + remove_all(s.skip(1), p)
    }
}

/// Whether `p` occurs in `s` at `i`.
fn occurs_at(s: &[u8], p: &[u8], i: usize) -> (r: bool)
    requires
        i <= s@.len(),
    ensures
        r == (p@.len() <= s@.len() - i && s@.skip(i as int).take(p@.len() as int) == p@),
{
    if p.len() > s.len() - i {
        return false;
    }
    let mut k: usize = 0;
    while k < p.len()
        invariant
            s@.len() <= usize::MAX,
            i <= s@.len(),
            p@.len() <= s@.len() - i,
            k <= p@.len(),
            forall|j: int| 0 <= j < k ==> s@[i + j] == p@[j],
        decreases p@.len() - k,
    {
        if s[i + k] != p[k] {
            assert(s@.skip(i as int).take(p@.len() as int)[k as int] != p@[k as int]);
            return false;
        }
        k = k + 1;
    }
    assert(s@.skip(i as int).take(p@.len() as int) =~= p@);
    true
}

/// `s` with every occurrence of `p` removed, scanning from the left.
pub fn remove_occurrences(s: &[u8], p: &[u8]) -> (r: Vec<u8>)
    ensures
        r@ == remove_all(s@, p@),
{
    let mut out: Vec<u8> = Vec::new();
    if p.len() == 0 {
        let mut k: usize = 0;
        while k < s.len()
            invariant
                k <= s@.len(),
                out@ == s@.take(k as int),
            decreases s@.len() - k,
        {
            out.push(s[k]);
            assert(out@ =~= s@.take(k + 1));
            k = k + 1;
        }
        assert(s@.take(s@.len() as int) =~= s@);
        return out;
    }
    let mut i: usize = 0;
    assert(s@.skip(0) =~= s@);
    assert(out@ + remove_all(s@, p@) =~= remove_all(s@, p@));
    while i < s.len()
        invariant
            p@.len() > 0,
            i <= s@.len(),
            out@ + remove_all(s@.skip(i as int), p@) == remove_all(s@, p@),
        decreases s@.len() - i,
    {
        let ghost rest = s@.skip(i as int);
        if occurs_at(s, p, i) {
            proof {
                assert(rest.skip(p@.len() as int) =~= s@.skip(i + p@.len()));
            }
            i = i + p.len();
        } else {
            proof {
                assert(rest.skip(1) =~= s@.skip(i + 1));
                if rest.len() >= p@.len() {
                    assert(out@ + (seq![rest[0]] + remove_all(rest.skip(1), p@)) =~= out@.push(s@[i as int]) + remove_all(rest.skip(1), p@));
                } else {
                    assert(remove_all(rest, p@) == rest);
                    assert(remove_all(rest.skip(1), p@) == rest.skip(1)) by {
                        assert(rest.skip(1).len() < p@.len());
                    }
                    assert(out@ + rest =~= out@.push(s@[i as int]) + rest.skip(1));
                }
            }
            out.push(s[i]);
            i = i + 1;
        }
    }
    assert(s@.skip(s@.len() as int) =~= Seq::<u8>::empty());
    assert(out@ + Seq::<u8>::empty() =~= out@);
    out
}

impl<F: FileSystem> VirtualFileSystem<F> {
    /// The paths of the mount points, in order.
    pub open spec fn mount_paths(&self) -> Seq<Seq<u8>> {
        Seq::new(self.mount_points@.len(), |i: int| self.mount_points@[i].path@)
    }

    /// The mount point a path goes to (`None` for the root file system), and
    /// the path within that file system.
    pub open spec fn route(&self, path: Seq<u8>) -> (Option<int>, Seq<u8>) {
        let m = longest_mount(self.mount_paths(), path, self.mount_points@.len() as int);
        match m {
            Some(i) => (m, remove_all(path, self.mount_paths()[i])),
            None => (None, path),
        }
    }

    /// A virtual file system with `root_fs` at its root and nothing mounted.
    pub fn new(root_fs: F) -> (r: Self)
        ensures
            r.root_fs == root_fs,
            r.mount_points@.len() == 0,
    {
        VirtualFileSystem { root_fs, mount_points: Vec::new() }
    }

    /// The mount point that `global_path` goes to, and the path within its
    /// file system: the longest mount path that is a prefix of it (the first
    /// of them if several are as long), with every occurrence of that mount
    /// path removed; the root file system and the path itself if none is.
    pub fn resolve_path(&self, global_path: &[u8]) -> (r: (Option<usize>, Vec<u8>))
        ensures
            (match r.0 {
                Some(i) => Some(i as int),
                None => None,
            }) == self.route(global_path@).0,
            r.1@ == self.route(global_path@).1,
            r.0 matches Some(i) ==> i < self.mount_points@.len(),
    {
        let mut best: Option<usize> = None;
        let mut best_len: usize = 0;
        let mut k: usize = 0;
        while k < self.mount_points.len()
            invariant
                k <= self.mount_points@.len(),
                (match best {
                    Some(i) => Some(i as int),
                    None => None,
                }) == longest_mount(self.mount_paths(), global_path@, k as int),
                best matches Some(i) ==> i < k && best_len == self.mount_points@[i as int].path@.len(),
            decreases self.mount_points@.len() - k,
        {
            let p = self.mount_points[k].path.as_slice();
            let is_pre = occurs_at(global_path, p, 0);
            proof {
                assert(global_path@.skip(0) =~= global_path@);
                assert(self.mount_paths()[k as int] == p@);
            }
            let longer = match best {
                Some(_) => p.len() > best_len,
                None => true,
            };
            if is_pre && longer {
                best = Some(k);
                best_len = p.len();
            }
            k = k + 1;
        }
        match best {
            Some(i) => {
                let inner = remove_occurrences(global_path, self.mount_points[i].path.as_slice());
                (Some(i), inner)
            },
            None => {
                let mut inner: Vec<u8> = Vec::new();
                let mut j: usize = 0;
                while j < global_path.len()
                    invariant
                        j <= global_path@.len(),
                        inner@ == global_path@.take(j as int),
                    decreases global_path@.len() - j,
                {
                    inner.push(global_path[j]);
                    assert(inner@ =~= global_path@.take(j + 1));
                    j = j + 1;
                }
                assert(global_path@.take(global_path@.len() as int) =~= global_path@);
                (None, inner)
            },
        }
    }
}

/// The index of the first of `paths` from `k` on that equals `p`.
pub open spec fn first_match(paths: Seq<Seq<u8>>, p: Seq<u8>, k: int) -> Option<int>
    decreases paths.len() - k,
{
    if k < 0 || k >= paths.len() {
        None
    } else if paths[k] == p {
        Some(k)
    } else {
        first_match(paths, p, k + 1)
    }
}

/// The mount point that a path goes to is mounted at a prefix of the path,
/// and no mount point at a prefix of the path has a longer path.
pub proof fn lemma_route_longest(paths: Seq<Seq<u8>>, s: Seq<u8>, n: int)
    requires
        0 <= n <= paths.len(),
    ensures
        longest_mount(paths, s, n) matches Some(i) ==> 0 <= i < n && is_prefix(paths[i], s) && forall|j: int|
            0 <= j < n && is_prefix(#[trigger] paths[j], s) ==> paths[j].len() <= paths[i].len(),
        longest_mount(paths, s, n) is None ==> forall|j: int| 0 <= j < n ==> !is_prefix(#[trigger] paths[j], s),
    decreases n,
{
    if n > 0 {
        lemma_route_longest(paths, s, n - 1);
    }
}

proof fn lemma_first_match(paths: Seq<Seq<u8>>, p: Seq<u8>, k: int)
    requires
        0 <= k <= paths.len(),
    ensures
        first_match(paths, p, k) matches Some(i) ==> k <= i < paths.len() && paths[i] == p && forall|j: int| k <= j < i ==> paths[j] != p,
        first_match(paths, p, k) is None ==> forall|j: int| k <= j < paths.len() ==> paths[j] != p,
    decreases paths.len() - k,
{
    if k < paths.len() {
        lemma_first_match(paths, p, k + 1);
    }
}

impl<F: FileSystem> VirtualFileSystem<F> {
    /// Mount `fs` at `path`, unless something is mounted there already.
    pub fn mount(&mut self, path: Vec<u8>, fs: F)
        ensures
            old(self).mount_paths().contains(path@) ==> final(self).mount_paths() == old(self).mount_paths(),
            !old(self).mount_paths().contains(path@) ==> final(self).mount_paths() == old(self).mount_paths().push(path@)
                && final(self).mount_points@.last().fs == fs,
    {
        let mut k: usize = 0;
        while k < self.mount_points.len()
            invariant
                k <= self.mount_points@.len(),
                forall|j: int| 0 <= j < k ==> self.mount_paths()[j] != path@,
            decreases self.mount_points@.len() - k,
        {
            if bytes_eq(self.mount_points[k].path.as_slice(), path.as_slice()) {
                proof {
                    assert(self.mount_paths()[k as int] == path@);
                }
                return;
            }
            k = k + 1;
        }
        let ghost before = self.mount_paths();
        self.mount_points.push(MountPoint { path, fs });
        assert(self.mount_paths() =~= before.push(path@));
    }

    /// Unmount what is mounted at `path`, if anything.
    pub fn unmount(&mut self, path: &[u8])
        ensures
            match first_match(old(self).mount_paths(), path@, 0) {
                Some(i) => final(self).mount_paths() == old(self).mount_paths().remove(i),
                None => final(self).mount_paths() == old(self).mount_paths(),
            },
    {
        let ghost before = self.mount_paths();
        proof {
            lemma_first_match(before, path@, 0);
        }
        let mut k: usize = 0;
        while k < self.mount_points.len()
            invariant
                k <= self.mount_points@.len(),
                before == self.mount_paths(),
                before == old(self).mount_paths(),
                forall|j: int| 0 <= j < k ==> self.mount_paths()[j] != path@,
            decreases self.mount_points@.len() - k,
        {
            if bytes_eq(self.mount_points[k].path.as_slice(), path) {
                proof {
                    assert(self.mount_paths()[k as int] == path@);
                    lemma_first_match(before, path@, 0);
                    match first_match(before, path@, 0) {
                        Some(i) => {
                            if i < k {
                                assert(before[i] != path@);
                            } else if i > k {
                                assert(before[k as int] != path@);
                            }
                        },
                        None => {
                            assert(before[k as int] != path@);
                        },
                    }
                }
                self.mount_points.remove(k);
                assert(self.mount_paths() =~= before.remove(k as int));
                return;
            }
            k = k + 1;
        }
    }

    /// Open `path` on the file system it goes to.
    pub fn open(&self, path: &[u8]) -> Option<File> {
        let (m, inner) = self.resolve_path(path);
        match m {
            Some(i) => self.mount_points[i].fs.open(inner.as_slice()),
            None => self.root_fs.open(inner.as_slice()),
        }
    }

    /// Close `file` on the file system its path goes to.
    pub fn close(&self, file: &File) -> bool {
        let (m, _) = self.resolve_path(file.pathname.as_slice());
        match m {
            Some(i) => self.mount_points[i].fs.close(file),
            None => self.root_fs.close(file),
        }
    }

    /// Read up to `amount` bytes of `file` into `buffer`.
    pub fn read(&self, file: &File, buffer: &mut [u8], amount: u32) -> u32 {
        let (m, _) = self.resolve_path(file.pathname.as_slice());
        match m {
            Some(i) => self.mount_points[i].fs.read(file, buffer, amount),
            None => self.root_fs.read(file, buffer, amount),
        }
    }

    /// Write up to `amount` bytes of `buffer` to `file`.
    pub fn write(&self, file: &File, buffer: &mut [u8], amount: u32) -> u32 {
        let (m, _) = self.resolve_path(file.pathname.as_slice());
        match m {
            Some(i) => self.mount_points[i].fs.write(file, buffer, amount),
            None => self.root_fs.write(file, buffer, amount),
        }
    }

    /// Create file `name` in directory `path`.
    pub fn create(&mut self, path: &[u8], name: &[u8]) -> (r: bool)
        ensures
            final(self).mount_paths() == old(self).mount_paths(),
    {
        let (m, inner) = self.resolve_path(path);
        match m {
            Some(i) => self.mount_points[i].fs.create(inner.as_slice(), name),
            None => self.root_fs.create(inner.as_slice(), name),
        }
    }

    /// Delete `path`.
    pub fn delete(&self, path: &[u8]) -> bool {
        let (m, inner) = self.resolve_path(path);
        match m {
            Some(i) => self.mount_points[i].fs.delete(inner.as_slice()),
            None => self.root_fs.delete(inner.as_slice()),
        }
    }

    /// The names in directory `path`.
    pub fn list_dir(&self, path: &[u8]) -> Option<Vec<Vec<u8>>> {
        let (m, inner) = self.resolve_path(path);
        match m {
            Some(i) => self.mount_points[i].fs.list_dir(inner.as_slice()),
            None => self.root_fs.list_dir(inner.as_slice()),
        }
    }

    /// Create directory `name` in directory `path`.
    pub fn mkdir(&mut self, path: &[u8], name: &[u8]) -> (r: bool)
        ensures
            final(self).mount_paths() == old(self).mount_paths(),
    {
        let (m, inner) = self.resolve_path(path);
        match m {
            Some(i) => self.mount_points[i].fs.mkdir(inner.as_slice(), name),
            None => self.root_fs.mkdir(inner.as_slice(), name),
        }
    }

    /// Remove directory `name` from directory `path`.
    pub fn rmdir(&mut self, path: &[u8], name: &[u8]) -> (r: bool)
        ensures
            final(self).mount_paths() == old(self).mount_paths(),
    {
        let (m, inner) = self.resolve_path(path);
        match m {
            Some(i) => self.mount_points[i].fs.rmdir(inner.as_slice(), name),
            None => self.root_fs.rmdir(inner.as_slice(), name),
        }
    }
}
} // verus!
