//! Paths as byte strings: splitting off the last component, and the working
//! directory path after a change of directory.
use vstd::prelude::*;

verus! {

/// The byte `/`.
pub const SLASH: u8 = 47;
/// The byte `.`.
pub const DOT: u8 = 46;

/// The index of the last `/` in `s`.
pub open spec fn last_slash(s: Seq<u8>) -> Option<int>
    decreases s.len(),
{
    if s.len() == 0 {
        None
    } else if s.last() == SLASH {
        Some(s.len() - 1)
    } else {
        last_slash(s.drop_last())
    }
}

/// What `last_slash` gives.
pub proof fn lemma_last_slash(s: Seq<u8>)
    ensures
        match last_slash(s) {
            Some(k) => 0 <= k < s.len() && s[k] == SLASH && forall|j: int| k < j < s.len() ==> s[j] != SLASH,
            None => forall|j: int| 0 <= j < s.len() ==> s[j] != SLASH,
        },
    decreases s.len(),
{
    if s.len() > 0 && s.last() != SLASH {
        lemma_last_slash(s.drop_last());
        assert forall|j: int| 0 <= j < s.len() - 1 implies s[j] == s.drop_last()[j] by {}
    }
}

/// `last_slash` is the last index holding a `/`.
pub proof fn lemma_last_slash_at(s: Seq<u8>, k: int)
    requires
        0 <= k < s.len(),
        s[k] == SLASH,
        forall|j: int| k < j < s.len() ==> s[j] != SLASH,
    ensures
        last_slash(s) == Some(k),
    decreases s.len(),
{
    if k < s.len() - 1 {
        lemma_last_slash_at(s.drop_last(), k);
    }
}

/// `s` holds no `/`.
pub proof fn lemma_last_slash_none(s: Seq<u8>)
    requires
        forall|j: int| 0 <= j < s.len() ==> s[j] != SLASH,
    ensures
        last_slash(s) is None,
    decreases s.len(),
{
    if s.len() > 0 {
        lemma_last_slash_none(s.drop_last());
    }
}

/// The directory part and the name part of `path`: what precedes the last `/`
/// (`/` itself when that is the first byte) and what follows it; with no `/`,
/// the directory is `.`.
pub open spec fn spec_dirname_and_filename(path: Seq<u8>) -> (Seq<u8>, Seq<u8>) {
    match last_slash(path) {
        None => (seq![DOT], path),
        Some(k) => (if k == 0 { seq![SLASH] } else { path.take(k) }, path.skip(k + 1)),
    }
}

/// The name part of a path holds no `/`, and the path is its directory part,
/// a `/` and its name part (for a path under the root, the root's `/` is the
/// one before the name).
pub proof fn lemma_dirname_filename_rejoin(path: Seq<u8>)
    ensures
        forall|j: int| 0 <= j < spec_dirname_and_filename(path).1.len() ==> #[trigger] spec_dirname_and_filename(path).1[j]
            != SLASH,
        last_slash(path) matches Some(k) && k > 0 ==> path == spec_dirname_and_filename(path).0 + seq![SLASH]
            + spec_dirname_and_filename(path).1,
        last_slash(path) == Some(0int) ==> path == spec_dirname_and_filename(path).0 + spec_dirname_and_filename(path).1,
        last_slash(path) is None ==> spec_dirname_and_filename(path).1 == path,
{
    lemma_last_slash(path);
    let (d, n) = spec_dirname_and_filename(path);
    match last_slash(path) {
        Some(k) => {
            assert forall|j: int| 0 <= j < n.len() implies #[trigger] n[j] != SLASH by {
                assert(n[j] == path[k + 1 + j]);
            }
            if k > 0 {
                assert(path =~= d + seq![SLASH] + n);
            } else {
                assert(path =~= d + n);
            }
        },
        None => {},
    }
}

/// Index of the last `/` of `path`.
pub fn rfind_slash(path: &[u8]) -> (r: Option<usize>)
    ensures
        match r {
            Some(k) => last_slash(path@) == Some(k as int),
            None => last_slash(path@) is None,
        },
{
    let mut i: usize = path.len();
    while i > 0
        invariant
            i <= path@.len(),
            forall|j: int| i <= j < path@.len() ==> path@[j] != SLASH,
        decreases i,
    {
        if path[i - 1] == SLASH {
            proof { lemma_last_slash_at(path@, i - 1); }
            return Some(i - 1);
        }
        i = i - 1;
    }
    proof { lemma_last_slash_none(path@); }
    None
}

/// The bytes `s[from..to]`.
pub fn copy_range(s: &[u8], from: usize, to: usize) -> (r: Vec<u8>)
    requires
        from <= to <= s@.len(),
    ensures
        r@ == s@.subrange(from as int, to as int),
{
    let mut v: Vec<u8> = Vec::new();
    let mut i = from;
    while i < to
        invariant
            from <= i <= to <= s@.len(),
            v@ == s@.subrange(from as int, i as int),
        decreases to - i,
    {
        v.push(s[i]);
        i = i + 1;
        assert(v@ =~= s@.subrange(from as int, i as int));
    }
    v
}

/// Get the parent directory and name of a path, e.g. `/foo/bar` gives `/foo`
/// and `bar`.
pub fn dirname_and_filename(path: &[u8]) -> (r: (Vec<u8>, Vec<u8>))
    ensures
        (r.0@, r.1@) == spec_dirname_and_filename(path@),
{
    match rfind_slash(path) {
        None => {
            let mut dot: Vec<u8> = Vec::new();
            dot.push(DOT);
            let name = copy_range(path, 0, path.len());
            assert(name@ =~= path@);
            assert(dot@ =~= seq![DOT]);
            (dot, name)
        },
        Some(k) => {
            proof { lemma_last_slash(path@); }
            let dir = if k == 0 {
                let mut d: Vec<u8> = Vec::new();
                d.push(SLASH);
                assert(d@ =~= seq![SLASH]);
                d
            } else {
                let d = copy_range(path, 0, k);
                assert(d@ =~= path@.take(k as int));
                d
            };
            proof { lemma_last_slash(path@); }
            let n = path.len();
            let name = copy_range(path, k + 1, n);
            assert(name@ =~= path@.skip(k + 1));
            (dir, name)
        },
    }
}

/// Whether `path` starts at the root.
pub open spec fn is_absolute(path: Seq<u8>) -> bool {
    path.len() > 0 && path[0] == SLASH
}

/// Whether `path` is made of `/` bytes alone (the empty path too): it names
/// the directory it starts from.
pub open spec fn only_slashes(path: Seq<u8>) -> bool {
    forall|j: int| 0 <= j < path.len() ==> path[j] == SLASH
}

/// Whether `comp` is empty or `.`: a component that stays where it is.
pub open spec fn is_stay(comp: Seq<u8>) -> bool {
    comp.len() == 0 || comp == seq![DOT]
}

/// Whether `comp` is `..`.
pub open spec fn is_up(comp: Seq<u8>) -> bool {
    comp == seq![DOT, DOT]
}

/// The working directory path `cwd` after a step into component `comp`:
/// unchanged for an empty component or `.`, the last component cut off for
/// `..` (down to `/`), `comp` appended after a `/` otherwise; `None` for `..`
/// when `cwd` holds no `/`.
pub open spec fn cwd_step(cwd: Seq<u8>, comp: Seq<u8>) -> Option<Seq<u8>> {
    if is_stay(comp) {
        Some(cwd)
    } else if is_up(comp) {
        match last_slash(cwd) {
            None => None,
            Some(k) => if k == 0 { Some(cwd.take(1)) } else { Some(cwd.take(k)) },
        }
    } else {
        Some(cwd.push(SLASH) + comp)
    }
}

/// `cwd_step` on a state that may already have failed.
pub open spec fn cwd_step_opt(cwd: Option<Seq<u8>>, comp: Seq<u8>) -> Option<Seq<u8>> {
    match cwd {
        None => None,
        Some(c) => cwd_step(c, comp),
    }
}

/// The working directory path after walking through every `/`-separated
/// component of `path`, in order, from `cwd`.
pub open spec fn cwd_walk(cwd: Seq<u8>, path: Seq<u8>) -> Option<Seq<u8>>
    decreases path.len(),
{
    match last_slash(path) {
        None => cwd_step(cwd, path),
        Some(k) => {
            proof { lemma_last_slash(path); }
            cwd_step_opt(cwd_walk(cwd, path.take(k)), path.skip(k + 1))
        },
    }
}

/// The working directory path after changing directory from `cwd` to `path`:
/// an absolute path starts over from the empty path.
pub open spec fn spec_chdir_path(cwd: Seq<u8>, path: Seq<u8>) -> Option<Seq<u8>> {
    cwd_walk(if is_absolute(path) { Seq::empty() } else { cwd }, path)
}

/// Changing directory to `..` from an absolute working directory path whose
/// only `/` is its first byte (such as `/home`, or `/` itself) gives `/`: the
/// path stays absolute and is not emptied.
pub proof fn lemma_up_from_top_level(cwd: Seq<u8>)
    requires
        cwd.len() > 0,
        cwd[0] == SLASH,
        forall|j: int| 1 <= j < cwd.len() ==> cwd[j] != SLASH,
    ensures
        spec_chdir_path(cwd, seq![DOT, DOT]) == Some(seq![SLASH]),
{
    let up = seq![DOT, DOT];
    lemma_last_slash_none(up);
    lemma_last_slash_at(cwd, 0);
    assert(!is_stay(up)) by {
        assert(up.len() == 2);
    }
    assert(cwd.take(1) =~= seq![SLASH]);
}

/// Changing directory to `..` from an absolute working directory path that
/// holds a `/` past its first byte cuts the path at its last `/`: the result
/// is the part before it, which is absolute and nonempty.
pub proof fn lemma_up_cuts_last_component(cwd: Seq<u8>, k: int)
    requires
        cwd.len() > 0,
        cwd[0] == SLASH,
        0 < k < cwd.len(),
        cwd[k] == SLASH,
        forall|j: int| k < j < cwd.len() ==> cwd[j] != SLASH,
    ensures
        spec_chdir_path(cwd, seq![DOT, DOT]) == Some(cwd.take(k)),
        cwd.take(k).len() > 0 && cwd.take(k)[0] == SLASH,
{
    let up = seq![DOT, DOT];
    lemma_last_slash_none(up);
    lemma_last_slash_at(cwd, k);
    assert(!is_stay(up)) by {
        assert(up.len() == 2);
    }
}

/// The state after the components of `path` that end before index `start`
/// (which follows a `/`, or is 0).
spec fn walk_before(cwd: Seq<u8>, path: Seq<u8>, start: int) -> Option<Seq<u8>> {
    if start == 0 {
        Some(cwd)
    } else {
        cwd_walk(cwd, path.take(start - 1))
    }
}

/// Whether `comp` is empty or `.`.
pub fn stay_component(comp: &[u8]) -> (r: bool)
    ensures
        r == is_stay(comp@),
{
    if comp.len() == 0 {
        return true;
    }
    if comp.len() == 1 && comp[0] == DOT {
        assert(comp@ =~= seq![DOT]);
        return true;
    }
    assert(comp@ != seq![DOT]);
    false
}

/// Whether `comp` is `..`.
pub fn up_component(comp: &[u8]) -> (r: bool)
    ensures
        r == is_up(comp@),
{
    if comp.len() == 2 && comp[0] == DOT && comp[1] == DOT {
        assert(comp@ =~= seq![DOT, DOT]);
        return true;
    }
    assert(comp@ != seq![DOT, DOT]);
    false
}

/// One step of `cwd_step` on `cwd`, in place; false where the step has no result.
fn step_in_place(cwd: &mut Vec<u8>, path: &[u8], from: usize, to: usize) -> (ok: bool)
    requires
        from <= to <= path@.len(),
    ensures
        ok == cwd_step(old(cwd)@, path@.subrange(from as int, to as int)) is Some,
        ok ==> cwd_step(old(cwd)@, path@.subrange(from as int, to as int)) == Some(final(cwd)@),
{
    let comp = copy_range(path, from, to);
    if stay_component(comp.as_slice()) {
        return true;
    }
    if up_component(comp.as_slice()) {
        match rfind_slash(cwd.as_slice()) {
            None => return false,
            Some(k) => {
                proof { lemma_last_slash(cwd@); }
                let keep = if k == 0 { 1 } else { k };
                cwd.truncate(keep);
                assert(cwd@ =~= old(cwd)@.take(keep as int));
                return true;
            },
        }
    }
    let ghost before = cwd@;
    cwd.push(SLASH);
    let mut i: usize = 0;
    while i < comp.len()
        invariant
            i <= comp@.len(),
            cwd@ == before.push(SLASH) + comp@.take(i as int),
        decreases comp@.len() - i,
    {
        cwd.push(comp[i]);
        i = i + 1;
        assert(cwd@ =~= before.push(SLASH) + comp@.take(i as int));
    }
    assert(comp@.take(comp@.len() as int) =~= comp@);
    true
}

/// A step at a `/` at `i`, after the component that starts at `start`.
proof fn lemma_walk_slash(cwd: Seq<u8>, path: Seq<u8>, start: int, i: int)
    requires
        0 <= start <= i < path.len(),
        path[i] == SLASH,
        start > 0 ==> path[start - 1] == SLASH,
        forall|j: int| start <= j < i ==> path[j] != SLASH,
    ensures
        walk_before(cwd, path, i + 1) == cwd_step_opt(walk_before(cwd, path, start), path.subrange(start, i)),
{
    let p = path.take(i);
    assert(path.take(i + 1 - 1) =~= p);
    if start == 0 {
        lemma_last_slash_none(p);
        assert(p =~= path.subrange(start, i));
    } else {
        lemma_last_slash_at(p, start - 1);
        assert(p.take(start - 1) =~= path.take(start - 1));
        assert(p.skip(start) =~= path.subrange(start, i));
    }
}

/// The last component, which runs from `start` to the end.
proof fn lemma_walk_end(cwd: Seq<u8>, path: Seq<u8>, start: int)
    requires
        0 <= start <= path.len(),
        start > 0 ==> path[start - 1] == SLASH,
        forall|j: int| start <= j < path.len() ==> path[j] != SLASH,
    ensures
        cwd_walk(cwd, path) == cwd_step_opt(walk_before(cwd, path, start), path.subrange(start, path.len() as int)),
{
    if start == 0 {
        lemma_last_slash_none(path);
        assert(path =~= path.subrange(start, path.len() as int));
    } else {
        lemma_last_slash_at(path, start - 1);
        assert(path.skip(start) =~= path.subrange(start, path.len() as int));
    }
}

/// The working directory path after changing directory from `cwd` to `path`,
/// or `None` where a `..` finds no `/` to cut at.
pub fn chdir_path(cwd: &Vec<u8>, path: &[u8]) -> (r: Option<Vec<u8>>)
    ensures
        match r {
            Some(v) => spec_chdir_path(cwd@, path@) == Some(v@),
            None => spec_chdir_path(cwd@, path@) is None,
        },
{
    let mut cur: Vec<u8> = if path.len() > 0 && path[0] == SLASH {
        Vec::new()
    } else {
        copy_range(cwd.as_slice(), 0, cwd.len())
    };
    let ghost start_path = if is_absolute(path@) { Seq::<u8>::empty() } else { cwd@ };
    assert(cur@ =~= start_path);
    let mut start: usize = 0;
    let mut i: usize = 0;
    while i < path.len()
        invariant
            start <= i <= path@.len(),
            start > 0 ==> path@[start - 1] == SLASH,
            forall|j: int| start <= j < i ==> path@[j] != SLASH,
            walk_before(start_path, path@, start as int) == Some(cur@),
            start_path == (if is_absolute(path@) { Seq::<u8>::empty() } else { cwd@ }),
        decreases path@.len() - i,
    {
        if path[i] == SLASH {
            proof { lemma_walk_slash(start_path, path@, start as int, i as int); }
            let ok = step_in_place(&mut cur, path, start, i);
            if !ok {
                proof {
                    lemma_walk_none(start_path, path@, i as int + 1);
                }
                return None;
            }
            start = i + 1;
        }
        i = i + 1;
    }
    proof { lemma_walk_end(start_path, path@, start as int); }
    let ok = step_in_place(&mut cur, path, start, path.len());
    if !ok {
        return None;
    }
    Some(cur)
}

/// Once a walk has failed, it stays failed.
proof fn lemma_walk_none(cwd: Seq<u8>, path: Seq<u8>, start: int)
    requires
        0 < start <= path.len(),
        path[start - 1] == SLASH,
        cwd_walk(cwd, path.take(start - 1)) is None,
    ensures
        cwd_walk(cwd, path) is None,
    decreases path.len(),
{
    lemma_last_slash(path);
    let k = last_slash(path)->0;
    if k == start - 1 {
        assert(path.take(k) =~= path.take(start - 1));
    } else {
        assert(k > start - 1);
        let p = path.take(k);
        assert(p.take(start - 1) =~= path.take(start - 1));
        lemma_walk_none(cwd, p, start);
    }
}

} // verus!
