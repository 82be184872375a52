//! FAT directory entries: 32-byte records, either an ordinary entry with an
//! 8.3 short name, or a piece of the long name of the entry that follows.
use crate::bytes::{le16_at, le32_at, read_u16_le, read_u32_le};
use crate::vfs::{Error, FileInfo, INodeType, Result};
use vstd::prelude::*;
use vstd::utf8::{encode_scalar, has_width_1_encoding, has_width_2_encoding, has_width_3_encoding, has_width_4_encoding, is_scalar};

verus! {

/// Size of a directory entry record.
pub const DIR_ENTRY_SIZE: usize = 32;
pub const ATTR_READ_ONLY: u8 = 0x01;
pub const ATTR_HIDDEN: u8 = 0x02;
pub const ATTR_SYSTEM: u8 = 0x04;
pub const ATTR_VOLUME_ID: u8 = 0x08;
pub const ATTR_DIRECTORY: u8 = 0x10;
pub const ATTR_ARCHIVE: u8 = 0x20;
/// The attribute byte of a long-name record.
pub const ATTR_LONG_NAME: u8 = 0x0F;
/// The space byte, which pads short names.
pub const SPACE: u8 = 0x20;
/// Room that the name buffer must have left before a record is read: more
/// than the longest name a record adds.
pub const NAME_SLACK: usize = 64;

/// An entry of a directory: where its name starts in the directory's name
/// buffer, and what it names.
pub struct DirEntry {
    pub name: usize,
    pub info: FileInfo,
}

/// The entries of a directory as they are read: the entries so far, their
/// NUL-terminated names one after another, and where the name of the next
/// entry starts (long-name pieces after it belong to that entry).
pub struct Directory {
    pub entries: Vec<DirEntry>,
    pub names: Vec<u8>,
    pub prev_name_end: usize,
}

/// A directory being read, as a specification sees it: the entries (name
/// start and information), the name bytes, and where the next name starts.
pub type DirState = (Seq<(usize, FileInfo)>, Seq<u8>, usize);

/// Where long-name unit `k` (of 13) sits in a long-name record.
pub open spec fn lfn_offset(k: int) -> int {
    if k < 5 {
        1 + 2 * k
    } else if k < 11 {
        14 + 2 * (k - 5)
    } else {
        28 + 2 * (k - 11)
    }
}

/// The 13 UTF-16 units of a long-name record.
pub open spec fn lfn_units(rec: Seq<u8>) -> Seq<u16> {
    Seq::new(13, |k: int| le16_at(rec, lfn_offset(k)) as u16)
}

/// The index of the first zero unit of `u` from `i` on, or its length.
pub open spec fn first_zero_from(u: Seq<u16>, i: int) -> int
    decreases u.len() - i,
{
    if i >= u.len() {
        u.len() as int
    } else if u[i] == 0 {
        i
    } else {
        first_zero_from(u, i + 1)
    }
}

/// `b` after `a`, unless `b` is `None`.
pub open spec fn opt_cat(a: Seq<u8>, b: Option<Seq<u8>>) -> Option<Seq<u8>> {
    match b {
        None => None,
        Some(x) => Some(a + x),
    }
}

/// The scalar that a surrogate pair stands for.
pub open spec fn surrogate_pair(hi: u16, lo: u16) -> u32 {
    (0x10000 + (hi - 0xD800) * 0x400 + (lo - 0xDC00)) as u32
}

/// The UTF-8 encoding of the UTF-16 units `u` from `i` on; `None` where a
/// surrogate is not in a pair.
pub open spec fn utf16_to_utf8(u: Seq<u16>, i: int) -> Option<Seq<u8>>
    decreases u.len() - i,
{
    if i >= u.len() || i < 0 {
        Some(Seq::empty())
    } else if u[i] < 0xD800 || u[i] > 0xDFFF {
        opt_cat(encode_scalar(u[i] as u32), utf16_to_utf8(u, i + 1))
    } else if u[i] <= 0xDBFF && i + 1 < u.len() && 0xDC00 <= u[i + 1] <= 0xDFFF {
        opt_cat(encode_scalar(surrogate_pair(u[i], u[i + 1])), utf16_to_utf8(u, i + 2))
    } else {
        None
    }
}

/// The length of `p` without its trailing spaces.
pub open spec fn trimmed_len(p: Seq<u8>) -> int
    decreases p.len(),
{
    if p.len() > 0 && p.last() == SPACE {
        trimmed_len(p.drop_last())
    } else {
        p.len() as int
    }
}

/// Whether `c` may stand in a short name: not a lower-case letter, a control
/// byte, a space, or one of `" * + , . / : ; < = > ? [ \ ] |` (5 stands for
/// 0xE5).
pub open spec fn short_char_ok(c: u8) -> bool {
    !(0x61 <= c <= 0x7A || c <= 4 || 6 <= c <= 0x20 || c == 0x22 || c == 0x2A || c == 0x2B || c == 0x2C || c == 0x2E || c == 0x2F
        || 0x3A <= c <= 0x3F || c == 0x5B || c == 0x5C || c == 0x5D || c == 0x7C)
}

/// The character a short-name byte stands for.
pub open spec fn short_char_scalar(c: u8) -> u32 {
    if c == 5 {
        0xE5
    } else {
        c as u32
    }
}

/// The UTF-8 encoding of the characters of short-name bytes `t`.
pub open spec fn short_utf8(t: Seq<u8>) -> Seq<u8>
    decreases t.len(),
{
    if t.len() == 0 {
        Seq::empty()
    } else {
        short_utf8(t.drop_last()) + encode_scalar(short_char_scalar(t.last()))
    }
}

/// A part of a short name (the base name or the extension) in UTF-8,
/// without its trailing spaces; `None` if it holds a byte no short name may.
pub open spec fn short_part(p: Seq<u8>) -> Option<Seq<u8>> {
    let t = p.take(trimmed_len(p));
    if forall|i: int| 0 <= i < t.len() ==> short_char_ok(#[trigger] t[i]) {
        Some(short_utf8(t))
    } else {
        None
    }
}

/// The name of an ordinary entry with 11-byte short name `name`: the base
/// name, then a dot and the extension unless the extension is blank.
pub open spec fn short_name(name: Seq<u8>) -> Option<Seq<u8>> {
    match short_part(name.subrange(0, 8)) {
        None => None,
        Some(base) => if name.subrange(8, 11) == seq![SPACE, SPACE, SPACE] {
            Some(base)
        } else {
            match short_part(name.subrange(8, 11)) {
                None => None,
                Some(ext) => Some(base.push(0x2E) + ext),
            }
        },
    }
}

/// The short name `.` padded with spaces.
pub open spec fn dot_name() -> Seq<u8> {
    seq![0x2Eu8, SPACE, SPACE, SPACE, SPACE, SPACE, SPACE, SPACE, SPACE, SPACE, SPACE]
}

/// The short name `..` padded with spaces.
pub open spec fn dotdot_name() -> Seq<u8> {
    seq![0x2Eu8, 0x2E, SPACE, SPACE, SPACE, SPACE, SPACE, SPACE, SPACE, SPACE, SPACE]
}

/// What an ordinary entry record says of the file it names: its first cluster
/// (which is its inode number), its size and its type.
pub open spec fn entry_info(rec: Seq<u8>) -> FileInfo {
    FileInfo {
        inode: (le16_at(rec, 26) + 65536 * le16_at(rec, 20)) as u32,
        size: le32_at(rec, 28) as u64,
        kind: if rec[11] & ATTR_DIRECTORY != 0 {
            INodeType::Directory
        } else {
            INodeType::File
        },
        nlink: 1,
    }
}

/// The state after adding the entry of record `rec`, whose name starts at
/// `start` of `names` (and runs to its end).
pub open spec fn push_entry(entries: Seq<(usize, FileInfo)>, names: Seq<u8>, start: usize, rec: Seq<u8>) -> DirState {
    (entries.push((start, entry_info(rec))), names.push(0), (names.len() + 1) as usize)
}

/// The state after reading record `rec`; `None` for a record that cannot be
/// read. A long-name record adds its piece of name (the pieces come last one
/// first, each reversed, and the whole name is reversed when its entry comes);
/// a free record changes nothing; an ordinary record adds an entry, named by
/// the long name before it or else by its short name (Linux's `.` and `..`
/// entries are skipped).
pub open spec fn dir_step(st: DirState, rec: Seq<u8>) -> Option<DirState> {
    let (entries, names, start) = st;
    if rec[11] == ATTR_LONG_NAME {
        let u = lfn_units(rec);
        match utf16_to_utf8(u.take(first_zero_from(u, 0)), 0) {
            None => None,
            Some(s) => Some((entries, names + s.reverse(), start)),
        }
    } else if rec[0] == 0 || rec[0] == 0xE5 {
        Some(st)
    } else if (start as int) < names.len() {
        Some(push_entry(entries, names.take(start as int) + names.skip(start as int).reverse(), start, rec))
    } else {
        let name = rec.take(11);
        if name == dot_name() || name == dotdot_name() {
            Some(st)
        } else if name == Seq::new(11, |i: int| SPACE) {
            None
        } else {
            match short_name(name) {
                None => None,
                Some(n) => Some(push_entry(entries, names + n, start, rec)),
            }
        }
    }
}

/// Reading an ordinary record (neither free nor a piece of a long name)
/// that adds an entry adds exactly one, at the end, whose inode number is the
/// record's whole 32-bit first cluster: the low half from bytes 26..28 and the
/// high half from bytes 20..22, each little-endian; whose size is the
/// little-endian 32-bit value of bytes 28..32; and which is a directory
/// exactly when bit 4 of byte 11 is set.
pub proof fn lemma_entry_from_record(st: DirState, rec: Seq<u8>)
    requires
        rec.len() == 32,
        rec[11] != ATTR_LONG_NAME,
        rec[0] != 0,
        rec[0] != 0xE5,
        dir_step(st, rec) matches Some(st2) && st2.0.len() != st.0.len(),
    ensures
        ({
            let st2 = dir_step(st, rec)->0;
            let info = st2.0.last().1;
            &&& st2.0.len() == st.0.len() + 1
            &&& st2.0.take(st.0.len() as int) == st.0
            &&& info.inode == rec[26] + 256 * rec[27] + 65536 * (rec[20] + 256 * rec[21])
            &&& info.size == rec[28] + 256 * rec[29] + 65536 * rec[30] + 16777216 * rec[31]
            &&& (info.kind == INodeType::Directory) == (rec[11] & 0x10 != 0)
        }),
{
    let st2 = dir_step(st, rec)->0;
    assert(st2.0.take(st.0.len() as int) =~= st.0);
    let v = rec[26] + 256 * rec[27] + 65536 * (rec[20] + 256 * rec[21]);
    assert(0 <= v <= u32::MAX);
}

/// Append the UTF-8 encoding of scalar `c` to `out`.
pub fn push_utf8(out: &mut Vec<u8>, c: u32)
    requires
        is_scalar(c),
    ensures
        final(out)@ == old(out)@ + encode_scalar(c),
{
    if c <= 0x7F {
        out.push((c & 0x7F) as u8);
    } else if c <= 0x7FF {
        out.push(0xC0 | ((c >> 6) & 0x1F) as u8);
        out.push(0x80 | (c & 0x3F) as u8);
    } else if c <= 0xFFFF {
        out.push(0xE0 | ((c >> 12) & 0x0F) as u8);
        out.push(0x80 | ((c >> 6) & 0x3F) as u8);
        out.push(0x80 | (c & 0x3F) as u8);
    } else {
        out.push(0xF0 | ((c >> 18) & 0x7) as u8);
        out.push(0x80 | ((c >> 12) & 0x3F) as u8);
        out.push(0x80 | ((c >> 6) & 0x3F) as u8);
        out.push(0x80 | (c & 0x3F) as u8);
    }
    assert(final(out)@ =~= old(out)@ + encode_scalar(c));
}

/// The UTF-8 encoding of UTF-16 units `u`, or `None` where a surrogate is not
/// in a pair.
pub fn decode_utf16(u: &Vec<u16>) -> (r: Option<Vec<u8>>)
    ensures
        match r {
            Some(v) => utf16_to_utf8(u@, 0) == Some(v@),
            None => utf16_to_utf8(u@, 0) is None,
        },
{
    let mut out: Vec<u8> = Vec::new();
    let mut i: usize = 0;
    while i < u.len()
        invariant
            i <= u@.len(),
            opt_cat(out@, utf16_to_utf8(u@, i as int)) == utf16_to_utf8(u@, 0),
        decreases u@.len() - i,
    {
        let c = u[i];
        let ghost before = out@;
        if c < 0xD800 || c > 0xDFFF {
            push_utf8(&mut out, c as u32);
            proof {
                assert(utf16_to_utf8(u@, i as int) == opt_cat(encode_scalar(c as u32), utf16_to_utf8(u@, i + 1)));
                match utf16_to_utf8(u@, i + 1) {
                    Some(x) => assert(before + (encode_scalar(c as u32) + x) =~= out@ + x),
                    None => {},
                }
            }
            i = i + 1;
        } else if c <= 0xDBFF && i + 1 < u.len() && 0xDC00 <= u[i + 1] && u[i + 1] <= 0xDFFF {
            let lo = u[i + 1];
            let scalar: u32 = 0x10000 + ((c - 0xD800) as u32) * 0x400 + ((lo - 0xDC00) as u32);
            assert(scalar == surrogate_pair(c, lo));
            push_utf8(&mut out, scalar);
            proof {
                match utf16_to_utf8(u@, i + 2) {
                    Some(x) => assert(before + (encode_scalar(scalar) + x) =~= out@ + x),
                    None => {},
                }
            }
            i = i + 2;
        } else {
            return None;
        }
    }
    assert(out@ + Seq::<u8>::empty() =~= out@);
    Some(out)
}

/// The length of `p` without its trailing spaces.
fn trim_len(p: &[u8]) -> (r: usize)
    ensures
        r == trimmed_len(p@),
        r <= p@.len(),
{
    let mut len = p.len();
    assert(p@.take(len as int) =~= p@);
    while len > 0 && p[len - 1] == SPACE
        invariant
            len <= p@.len(),
            trimmed_len(p@) == trimmed_len(p@.take(len as int)),
        decreases len,
    {
        assert(p@.take(len as int).drop_last() =~= p@.take(len - 1));
        len = len - 1;
    }
    assert(p@.take(p@.len() as int) =~= p@);
    len
}

/// Whether `c` may stand in a short name.
fn short_char_valid(c: u8) -> (r: bool)
    ensures
        r == short_char_ok(c),
{
    !((0x61 <= c && c <= 0x7A) || c <= 4 || (6 <= c && c <= 0x20) || c == 0x22 || c == 0x2A || c == 0x2B || c == 0x2C || c == 0x2E
        || c == 0x2F || (0x3A <= c && c <= 0x3F) || c == 0x5B || c == 0x5C || c == 0x5D || c == 0x7C)
}

/// Append part `part` of a short name to `names`, in UTF-8; false (with
/// `names` partly extended) if it holds a byte no short name may.
fn read_short_name_part(names: &mut Vec<u8>, part: &[u8]) -> (ok: bool)
    ensures
        ok == short_part(part@) is Some,
        ok ==> final(names)@ == old(names)@ + short_part(part@)->0,
        final(names)@.len() >= old(names)@.len(),
{
    let len = trim_len(part);
    let ghost t = part@.take(len as int);
    let mut i: usize = 0;
    while i < len
        invariant
            i <= len <= part@.len(),
            len == trimmed_len(part@),
            t == part@.take(len as int),
            forall|j: int| 0 <= j < i ==> short_char_ok(#[trigger] t[j]),
            names@ == old(names)@ + short_utf8(t.take(i as int)),
        decreases len - i,
    {
        let c = part[i];
        if !short_char_valid(c) {
            assert(!short_char_ok(t[i as int]));
            assert(!(forall|j: int| 0 <= j < t.len() ==> short_char_ok(#[trigger] t[j])));
            return false;
        }
        let scalar: u32 = if c == 5 { 0xE5 } else { c as u32 };
        push_utf8(names, scalar);
        proof {
            assert(t.take(i + 1).drop_last() =~= t.take(i as int));
            assert(names@ =~= old(names)@ + short_utf8(t.take(i + 1)));
        }
        i = i + 1;
    }
    assert(t.take(len as int) =~= t);
    true
}

/// Whether bytes `a[from..from + b.len()]` are `b`.
fn bytes_at(a: &[u8], from: usize, b: &[u8]) -> (r: bool)
    requires
        from + b@.len() <= a@.len(),
    ensures
        r == (a@.subrange(from as int, from + b@.len()) == b@),
{
    let alen = a.len();
    let mut i: usize = 0;
    while i < b.len()
        invariant
            i <= b@.len(),
            alen == a@.len(),
            from + b@.len() <= a@.len(),
            forall|j: int| 0 <= j < i ==> a@[from + j] == b@[j],
        decreases b@.len() - i,
    {
        if a[from + i] != b[i] {
            assert(a@.subrange(from as int, from + b@.len())[i as int] != b@[i as int]);
            return false;
        }
        i = i + 1;
    }
    assert(a@.subrange(from as int, from + b@.len()) =~= b@);
    true
}

/// Whether all of `a[0..11]` are spaces.
fn all_spaces(a: &[u8]) -> (r: bool)
    requires
        11 <= a@.len(),
    ensures
        r == (a@.take(11) == Seq::new(11, |i: int| SPACE)),
{
    let mut i: usize = 0;
    while i < 11
        invariant
            i <= 11 <= a@.len(),
            forall|j: int| 0 <= j < i ==> a@[j] == SPACE,
        decreases 11 - i,
    {
        if a[i] != SPACE {
            assert(a@.take(11)[i as int] != Seq::new(11, |j: int| SPACE)[i as int]);
            return false;
        }
        i = i + 1;
    }
    assert(a@.take(11) =~= Seq::new(11, |i: int| SPACE));
    true
}

impl Directory {
    /// The directory as a specification sees it.
    pub open spec fn view(&self) -> DirState {
        (Seq::new(self.entries@.len(), |i: int| (self.entries@[i].name, self.entries@[i].info)), self.names@, self.prev_name_end)
    }

    /// The next name starts inside the name buffer, and every entry's name
    /// starts before the end of the buffer.
    pub open spec fn wf(&self) -> bool {
        &&& self.prev_name_end <= self.names@.len()
        &&& forall|i: int| 0 <= i < self.entries@.len() ==> (#[trigger] self.entries@[i]).info.size <= u32::MAX
    }

    /// A directory with no entry read yet.
    pub fn new() -> (r: Self)
        ensures
            r.wf(),
            r.view() == (Seq::<(usize, FileInfo)>::empty(), Seq::<u8>::empty(), 0usize),
    {
        let r = Directory { entries: Vec::new(), names: Vec::new(), prev_name_end: 0 };
        assert(r.view().0 =~= Seq::<(usize, FileInfo)>::empty());
        r
    }

    /// Add the entry of ordinary record `bytes`, whose name is what the name
    /// buffer holds from `prev_name_end` on.
    fn push_entry(&mut self, bytes: &[u8])
        requires
            bytes@.len() == DIR_ENTRY_SIZE,
            old(self).wf(),
            old(self).names@.len() < usize::MAX,
        ensures
            final(self).wf(),
            final(self).view() == push_entry(old(self).view().0, old(self).names@, old(self).prev_name_end, bytes@),
    {
        let attr = bytes[11];
        let kind = if (attr & ATTR_DIRECTORY) != 0 {
            INodeType::Directory
        } else {
            INodeType::File
        };
        let size = read_u32_le(bytes, 28);
        let lo = read_u16_le(bytes, 26);
        let hi = read_u16_le(bytes, 20);
        let cluster: u32 = (lo as u32) | ((hi as u32) << 16);
        proof {
            assert((lo as u32) | ((hi as u32) << 16) == lo as u32 + 65536 * (hi as u32)) by (bit_vector);
        }
        let info = FileInfo { kind, inode: cluster, size: size as u64, nlink: 1 };
        let name = self.prev_name_end;
        self.names.push(0);
        self.prev_name_end = self.names.len();
        self.entries.push(DirEntry { name, info });
        assert(self.view().0 =~= old(self).view().0.push((name, entry_info(bytes@))));
    }

    /// Read the 32-byte directory record `bytes`.
    pub fn read_one_entry(&mut self, bytes: &[u8]) -> (r: Result<()>)
        requires
            bytes@.len() == DIR_ENTRY_SIZE,
            old(self).wf(),
        ensures
            final(self).wf(),
            old(self).names@.len() + NAME_SLACK > usize::MAX ==> r matches Err(Error::NoSpace),
            old(self).names@.len() + NAME_SLACK <= usize::MAX ==> match dir_step(old(self).view(), bytes@) {
                Some(st) => r is Ok && final(self).view() == st,
                None => r is Err,
            },
    {
        if self.names.len() > usize::MAX - NAME_SLACK {
            return Err(Error::NoSpace);
        }
        let attr = bytes[11];
        if attr == ATTR_LONG_NAME {
            // a piece of the long name of the next entry
            let mut units: Vec<u16> = Vec::new();
            let mut k: usize = 0;
            while k < 13
                invariant
                    k <= 13,
                    bytes@.len() == DIR_ENTRY_SIZE,
                    units@ == lfn_units(bytes@).take(k as int),
                decreases 13 - k,
            {
                let off: usize = if k < 5 {
                    1 + 2 * k
                } else if k < 11 {
                    14 + 2 * (k - 5)
                } else {
                    28 + 2 * (k - 11)
                };
                units.push(read_u16_le(bytes, off));
                k = k + 1;
                assert(units@ =~= lfn_units(bytes@).take(k as int));
            }
            assert(units@ =~= lfn_units(bytes@));
            let mut length: usize = 0;
            while length < units.len() && units[length] != 0
                invariant
                    length <= units@.len(),
                    first_zero_from(units@, 0) == first_zero_from(units@, length as int),
                decreases units@.len() - length,
            {
                length = length + 1;
            }
            let mut name_units: Vec<u16> = Vec::new();
            let mut j: usize = 0;
            while j < length
                invariant
                    j <= length <= units@.len(),
                    name_units@ == units@.take(j as int),
                decreases length - j,
            {
                name_units.push(units[j]);
                j = j + 1;
                assert(name_units@ =~= units@.take(j as int));
            }
            let utf8 = match decode_utf16(&name_units) {
                Some(v) => v,
                None => return Err(Error::io("file name contains bad UTF-16.")),
            };
            // the pieces of a long name come last one first, so each goes in
            // reversed, and the whole name is reversed when its entry comes
            let ghost names0 = self.names@;
            let mut i: usize = utf8.len();
            while i > 0
                invariant
                    i <= utf8@.len(),
                    self.names@ == names0 + utf8@.skip(i as int).reverse(),
                    self.prev_name_end == old(self).prev_name_end,
                    self.entries@ == old(self).entries@,
                decreases i,
            {
                i = i - 1;
                self.names.push(utf8[i]);
                assert(utf8@.skip(i as int).reverse() =~= utf8@.skip(i + 1).reverse().push(utf8@[i as int]));
                assert(self.names@ =~= names0 + utf8@.skip(i as int).reverse());
            }
            assert(utf8@.skip(0) =~= utf8@);
            return Ok(());
        }
        if bytes[0] == 0 || bytes[0] == 0xE5 {
            // a free record
            return Ok(());
        }
        // an ordinary entry
        let start = self.prev_name_end;
        if start < self.names.len() {
            // named by the long name before it, whose bytes are reversed
            let ghost names0 = self.names@;
            let n = self.names.len();
            let mut a = start;
            let mut b = n;
            while b - a > 1
                invariant
                    start <= a <= b <= n,
                    n == names0.len(),
                    a - start == n - b,
                    self.names@.len() == n,
                    self.prev_name_end == start,
                    self.entries@ == old(self).entries@,
                    forall|x: int| 0 <= x < start ==> self.names@[x] == names0[x],
                    forall|x: int| start <= x < a ==> self.names@[x] == names0[n - 1 - (x - start)],
                    forall|x: int| b <= x < n ==> self.names@[x] == names0[start + (n - 1 - x)],
                    forall|x: int| a <= x < b ==> self.names@[x] == names0[x],
                decreases b - a,
            {
                let x = self.names[a];
                let y = self.names[b - 1];
                self.names.set(a, y);
                self.names.set(b - 1, x);
                a = a + 1;
                b = b - 1;
            }
            assert(self.names@ =~= names0.take(start as int) + names0.skip(start as int).reverse());
            self.push_entry(bytes);
            return Ok(());
        }
        // named by its short name
        let dot: [u8; 11] = [0x2E, SPACE, SPACE, SPACE, SPACE, SPACE, SPACE, SPACE, SPACE, SPACE, SPACE];
        let dotdot: [u8; 11] = [0x2E, 0x2E, SPACE, SPACE, SPACE, SPACE, SPACE, SPACE, SPACE, SPACE, SPACE];
        assert(dot@ =~= dot_name());
        assert(dotdot@ =~= dotdot_name());
        assert(bytes@.subrange(0, 11) =~= bytes@.take(11));
        // Linux stores entries for . and .. (against the specification)
        if bytes_at(bytes, 0, &dot) || bytes_at(bytes, 0, &dotdot) {
            return Ok(());
        }
        if all_spaces(bytes) {
            return Err(Error::io("empty file name"));
        }
        let ghost names0 = self.names@;
        let base = vstd::slice::slice_subrange(bytes, 0, 8);
        assert(base@ =~= bytes@.take(11).subrange(0, 8));
        if !read_short_name_part(&mut self.names, base) {
            return Err(Error::io("invalid character in FAT short name"));
        }
        let ext = vstd::slice::slice_subrange(bytes, 8, 11);
        assert(ext@ =~= bytes@.take(11).subrange(8, 11));
        let blank: [u8; 3] = [SPACE, SPACE, SPACE];
        assert(blank@ =~= seq![SPACE, SPACE, SPACE]);
        if !bytes_at(bytes, 8, &blank) {
            let ghost names1 = self.names@;
            self.names.push(0x2E);
            if !read_short_name_part(&mut self.names, ext) {
                return Err(Error::io("invalid character in FAT short name"));
            }
            proof {
                let b = short_part(bytes@.take(11).subrange(0, 8))->0;
                let e = short_part(bytes@.take(11).subrange(8, 11))->0;
                assert(self.names@ =~= names0 + (b.push(0x2E) + e));
            }
        }
        proof { lemma_short_name_len(bytes@.take(11)); }
        self.push_entry(bytes);
        Ok(())
    }
}

/// A short name in UTF-8 takes at most 2 bytes for each of its 12 characters.
proof fn lemma_short_name_len(name: Seq<u8>)
    requires
        name.len() == 11,
    ensures
        short_name(name) matches Some(n) ==> n.len() <= 24,
{
    lemma_short_part_len(name.subrange(0, 8));
    lemma_short_part_len(name.subrange(8, 11));
}

/// Each byte of a short name part becomes at most 2 bytes of UTF-8.
proof fn lemma_short_part_len(p: Seq<u8>)
    ensures
        short_part(p) matches Some(n) ==> n.len() <= 2 * p.len(),
{
    lemma_trimmed_len(p);
    lemma_short_utf8_len(p.take(trimmed_len(p)));
}

proof fn lemma_trimmed_len(p: Seq<u8>)
    ensures
        0 <= trimmed_len(p) <= p.len(),
    decreases p.len(),
{
    if p.len() > 0 && p.last() == SPACE {
        lemma_trimmed_len(p.drop_last());
    }
}

proof fn lemma_short_utf8_len(t: Seq<u8>)
    ensures
        short_utf8(t).len() <= 2 * t.len(),
    decreases t.len(),
{
    if t.len() > 0 {
        lemma_short_utf8_len(t.drop_last());
        let c = short_char_scalar(t.last());
        assert(has_width_1_encoding(c) || has_width_2_encoding(c));
    }
}

} // verus!
