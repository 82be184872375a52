//! Little-endian integer encoding and decoding.
use vstd::prelude::*;
use zerocopy::byteorder::little_endian::{U16, U32};

verus! {

/// The value of two bytes read as a little-endian integer.
pub open spec fn le16(b0: u8, b1: u8) -> int {
    b0 as int + 256 * (b1 as int)
}

/// The value of four bytes read as a little-endian integer.
pub open spec fn le32(b0: u8, b1: u8, b2: u8, b3: u8) -> int {
    b0 as int + 256 * (b1 as int) + 65536 * (b2 as int) + 16777216 * (b3 as int)
}

/// The value of the two bytes of `s` at `off`, read as a little-endian integer.
pub open spec fn le16_at(s: Seq<u8>, off: int) -> int {
    le16(s[off], s[off + 1])
}

/// The value of the four bytes of `s` at `off`, read as a little-endian integer.
pub open spec fn le32_at(s: Seq<u8>, off: int) -> int {
    le32(s[off], s[off + 1], s[off + 2], s[off + 3])
}

/// Decodes a little-endian `u16` with `zerocopy::byteorder::little_endian::U16`
/// (`from_bytes` followed by `get`); the result is `b0 + 256 * b1`.
#[verifier::external_body]
fn zerocopy_le_u16(b0: u8, b1: u8) -> (r: u16)
    ensures
        r == le16(b0, b1),
{
    U16::from_bytes([b0, b1]).get()
}

/// Decodes a little-endian `u32` with `zerocopy::byteorder::little_endian::U32`
/// (`from_bytes` followed by `get`); the result is the base-256 value of the bytes.
#[verifier::external_body]
fn zerocopy_le_u32(b0: u8, b1: u8, b2: u8, b3: u8) -> (r: u32)
    ensures
        r == le32(b0, b1, b2, b3),
{
    U32::from_bytes([b0, b1, b2, b3]).get()
}

/// Reads the little-endian `u16` at byte offset `off` of `buf`.
pub fn read_u16_le(buf: &[u8], off: usize) -> (r: u16)
    requires
        off + 2 <= buf@.len(),
    ensures
        r == le16_at(buf@, off as int),
{
    zerocopy_le_u16(buf[off], buf[off + 1])
}

/// Reads the little-endian `u32` at byte offset `off` of `buf`.
pub fn read_u32_le(buf: &[u8], off: usize) -> (r: u32)
    requires
        off + 4 <= buf@.len(),
    ensures
        r == le32_at(buf@, off as int),
{
    zerocopy_le_u32(buf[off], buf[off + 1], buf[off + 2], buf[off + 3])
}

/// The two little-endian bytes of `v`.
pub open spec fn u16_le_bytes(v: u16) -> Seq<u8> {
    seq![(v & 0xff) as u8, (v >> 8) as u8]
}

/// The four little-endian bytes of `v`.
pub open spec fn u32_le_bytes(v: u32) -> Seq<u8> {
    seq![(v & 0xff) as u8, ((v >> 8) & 0xff) as u8, ((v >> 16) & 0xff) as u8, (v >> 24) as u8]
}

/// The bytes of `v` read back give `v`.
pub proof fn lemma_u16_le_bytes_value(v: u16)
    ensures
        le16(u16_le_bytes(v)[0], u16_le_bytes(v)[1]) == v,
{
    let b0 = (v & 0xff) as u8;
    let b1 = (v >> 8) as u8;
    assert(b0 as int + 256 * (b1 as int) == v) by (bit_vector)
        requires
            b0 == (v & 0xff) as u8,
            b1 == (v >> 8) as u8,
    ;
}

/// The bytes of `v` read back give `v`.
pub proof fn lemma_u32_le_bytes_value(v: u32)
    ensures
        le32(u32_le_bytes(v)[0], u32_le_bytes(v)[1], u32_le_bytes(v)[2], u32_le_bytes(v)[3]) == v,
{
    let b0 = (v & 0xff) as u8;
    let b1 = ((v >> 8) & 0xff) as u8;
    let b2 = ((v >> 16) & 0xff) as u8;
    let b3 = (v >> 24) as u8;
    assert(b0 as int + 256 * (b1 as int) + 65536 * (b2 as int) + 16777216 * (b3 as int) == v)
        by (bit_vector)
        requires
            b0 == (v & 0xff) as u8,
            b1 == ((v >> 8) & 0xff) as u8,
            b2 == ((v >> 16) & 0xff) as u8,
            b3 == (v >> 24) as u8,
    ;
}

proof fn lemma_le16_injective(a0: u8, a1: u8, b0: u8, b1: u8)
    requires
        le16(a0, a1) == le16(b0, b1),
    ensures
        a0 == b0 && a1 == b1,
{
}

proof fn lemma_le32_injective(a0: u8, a1: u8, a2: u8, a3: u8, b0: u8, b1: u8, b2: u8, b3: u8)
    requires
        le32(a0, a1, a2, a3) == le32(b0, b1, b2, b3),
    ensures
        a0 == b0 && a1 == b1 && a2 == b2 && a3 == b3,
{
}

/// Encoding the value of two bytes gives the same bytes.
pub proof fn lemma_le16_bytes_of_value(b0: u8, b1: u8)
    ensures
        0 <= le16(b0, b1) <= u16::MAX,
        u16_le_bytes(le16(b0, b1) as u16) == seq![b0, b1],
{
    let v = le16(b0, b1) as u16;
    lemma_u16_le_bytes_value(v);
    lemma_le16_injective(u16_le_bytes(v)[0], u16_le_bytes(v)[1], b0, b1);
    assert(u16_le_bytes(v) =~= seq![b0, b1]);
}

/// Encoding the value of four bytes gives the same bytes.
pub proof fn lemma_le32_bytes_of_value(b0: u8, b1: u8, b2: u8, b3: u8)
    ensures
        0 <= le32(b0, b1, b2, b3) <= u32::MAX,
        u32_le_bytes(le32(b0, b1, b2, b3) as u32) == seq![b0, b1, b2, b3],
{
    let v = le32(b0, b1, b2, b3) as u32;
    lemma_u32_le_bytes_value(v);
    let e = u32_le_bytes(v);
    lemma_le32_injective(e[0], e[1], e[2], e[3], b0, b1, b2, b3);
    assert(u32_le_bytes(v) =~= seq![b0, b1, b2, b3]);
}

/// Writes the little-endian bytes of `v` at offset `off` of `buf`.
pub fn write_u16_le(buf: &mut [u8], off: usize, v: u16)
    requires
        off + 2 <= old(buf)@.len(),
    ensures
        final(buf)@ == old(buf)@.update(off as int, u16_le_bytes(v)[0]).update(off + 1, u16_le_bytes(v)[1]),
{
    buf[off] = (v & 0xff) as u8;
    buf[off + 1] = (v >> 8) as u8;
}

/// Writes the little-endian bytes of `v` at offset `off` of `buf`.
pub fn write_u32_le(buf: &mut [u8], off: usize, v: u32)
    requires
        off + 4 <= old(buf)@.len(),
    ensures
        final(buf)@ == old(buf)@.update(off as int, u32_le_bytes(v)[0]).update(off + 1, u32_le_bytes(v)[1]).update(
            off + 2,
            u32_le_bytes(v)[2],
        ).update(off + 3, u32_le_bytes(v)[3]),
{
    buf[off] = (v & 0xff) as u8;
    buf[off + 1] = ((v >> 8) & 0xff) as u8;
    buf[off + 2] = ((v >> 16) & 0xff) as u8;
    buf[off + 3] = (v >> 24) as u8;
}

/// Whether two byte slices hold the same bytes.
pub fn bytes_eq(a: &[u8], b: &[u8]) -> (r: bool)
    ensures
        r == (a@ == b@),
{
    if a.len() != b.len() {
        return false;
    }
    let mut i: usize = 0;
    while i < a.len()
        invariant
            a@.len() == b@.len(),
            i <= a@.len(),
            forall|j: int| 0 <= j < i ==> a@[j] == b@[j],
        decreases a@.len() - i,
    {
        if a[i] != b[i] {
            return false;
        }
        i = i + 1;
    }
    assert(a@ =~= b@);
    true
}

/// Whether two strings are equal, compared through their UTF-8 bytes.
pub fn str_eq(a: &str, b: &str) -> (r: bool)
    ensures
        r == (a@ == b@),
{
    let r = bytes_eq(a.as_bytes(), b.as_bytes());
    proof {
        vstd::utf8::encode_utf8_decode_utf8(a@);
        vstd::utf8::encode_utf8_decode_utf8(b@);
    }
    r
}

/// The value of the eight bytes of `s` at `off`, read as a little-endian integer.
pub open spec fn le64_at(s: Seq<u8>, off: int) -> int {
    le32_at(s, off) + 4294967296 * le32_at(s, off + 4)
}

/// Reads the little-endian `u64` at byte offset `off` of `buf`.
pub fn read_u64_le(buf: &[u8], off: usize) -> (r: u64)
    requires
        off + 8 <= buf@.len(),
    ensures
        r == le64_at(buf@, off as int),
{
    let len = buf.len();
    let lo = read_u32_le(buf, off);
    let hi = read_u32_le(buf, off + 4);
    lo as u64 + (hi as u64) * 4294967296
}

/// Whether `b` is a continuation byte of a UTF-8 sequence.
pub open spec fn utf8_cont(b: u8) -> bool {
    0x80 <= b <= 0xBF
}

/// The length of the well-formed UTF-8 sequence that starts at `i` in `s`,
/// or 0 if none does (no overlong forms, no surrogates, nothing above
/// U+10FFFF).
pub open spec fn utf8_seq_len(s: Seq<u8>, i: int) -> int {
    let b0 = s[i];
    if b0 < 0x80 {
        1
    } else if 0xC2 <= b0 <= 0xDF {
        if i + 1 < s.len() && utf8_cont(s[i + 1]) { 2 } else { 0 }
    } else if 0xE0 <= b0 <= 0xEF {
        let second_ok = if b0 == 0xE0 {
            0xA0 <= s[i + 1] <= 0xBF
        } else if b0 == 0xED {
            0x80 <= s[i + 1] <= 0x9F
        } else {
            utf8_cont(s[i + 1])
        };
        if i + 2 < s.len() && second_ok && utf8_cont(s[i + 2]) { 3 } else { 0 }
    } else if 0xF0 <= b0 <= 0xF4 {
        let second_ok = if b0 == 0xF0 {
            0x90 <= s[i + 1] <= 0xBF
        } else if b0 == 0xF4 {
            0x80 <= s[i + 1] <= 0x8F
        } else {
            utf8_cont(s[i + 1])
        };
        if i + 3 < s.len() && second_ok && utf8_cont(s[i + 2]) && utf8_cont(s[i + 3]) { 4 } else { 0 }
    } else {
        0
    }
}

/// Whether the bytes of `s` from `i` on are well-formed UTF-8.
pub open spec fn valid_utf8_from(s: Seq<u8>, i: int) -> bool
    decreases s.len() - i,
{
    if 0 <= i < s.len() {
        let n = utf8_seq_len(s, i);
        n > 0 && valid_utf8_from(s, i + n)
    } else {
        true
    }
}

/// Second bytes of the leading bytes whose second byte is restricted.
proof fn lemma_utf8_width2(b0: u8, b1: u8)
    by (bit_vector)
    requires
        0xC0 <= b0 <= 0xDF,
        0x80 <= b1 <= 0xBF,
    ensures
        ((((b0 & 0x1F) as u32) << 6) | ((b1 & 0x3F) as u32)) >= 0x80 <==> b0 >= 0xC2,
        ((((b0 & 0x1F) as u32) << 6) | ((b1 & 0x3F) as u32)) < 0x800,
{
}

proof fn lemma_utf8_width3(b0: u8, b1: u8, b2: u8)
    by (bit_vector)
    requires
        0xE0 <= b0 <= 0xEF,
        0x80 <= b1 <= 0xBF,
        0x80 <= b2 <= 0xBF,
    ensures
        ((((b0 & 0x0F) as u32) << 12) | (((b1 & 0x3F) as u32) << 6) | ((b2 & 0x3F) as u32)) >= 0x800 <==> (b0 != 0xE0
            || b1 >= 0xA0),
        (0xD800 <= ((((b0 & 0x0F) as u32) << 12) | (((b1 & 0x3F) as u32) << 6) | ((b2 & 0x3F) as u32)) <= 0xDFFF) <==> (
        b0 == 0xED && b1 >= 0xA0),
        ((((b0 & 0x0F) as u32) << 12) | (((b1 & 0x3F) as u32) << 6) | ((b2 & 0x3F) as u32)) < 0x10000,
{
}

proof fn lemma_utf8_width4(b0: u8, b1: u8, b2: u8, b3: u8)
    by (bit_vector)
    requires
        0xF0 <= b0 <= 0xF7,
        0x80 <= b1 <= 0xBF,
        0x80 <= b2 <= 0xBF,
        0x80 <= b3 <= 0xBF,
    ensures
        (0x10000 <= ((((b0 & 0x07) as u32) << 18) | (((b1 & 0x3F) as u32) << 12) | (((b2 & 0x3F) as u32) << 6) | ((b3
            & 0x3F) as u32)) <= 0x10FFFF) <==> (b0 <= 0xF4 && (b0 != 0xF0 || b1 >= 0x90) && (b0 != 0xF4 || b1 <= 0x8F)),
{
}

/// The table of well-formed byte sequences agrees with the decoding of the
/// first scalar.
proof fn lemma_utf8_first(s: Seq<u8>)
    requires
        s.len() > 0,
    ensures
        (utf8_seq_len(s, 0) > 0) == vstd::utf8::valid_first_scalar(s),
        utf8_seq_len(s, 0) > 0 ==> vstd::utf8::length_of_first_scalar(s) == utf8_seq_len(s, 0),
{
    let b0 = s[0];
    if 0xC0 <= b0 <= 0xDF && s.len() >= 2 && utf8_cont(s[1]) {
        lemma_utf8_width2(b0, s[1]);
    }
    if 0xE0 <= b0 <= 0xEF && s.len() >= 3 && utf8_cont(s[1]) && utf8_cont(s[2]) {
        lemma_utf8_width3(b0, s[1], s[2]);
    }
    if 0xF0 <= b0 <= 0xF7 && s.len() >= 4 && utf8_cont(s[1]) && utf8_cont(s[2]) && utf8_cont(s[3]) {
        lemma_utf8_width4(b0, s[1], s[2], s[3]);
    }
}

/// Checking from `i` on is checking the bytes from `i` on.
proof fn lemma_utf8_from(s: Seq<u8>, i: int)
    requires
        0 <= i <= s.len(),
    ensures
        valid_utf8_from(s, i) == vstd::utf8::valid_utf8(s.skip(i)),
    decreases s.len() - i,
{
    let t = s.skip(i);
    if i < s.len() {
        assert(utf8_seq_len(s, i) == utf8_seq_len(t, 0));
        lemma_utf8_first(t);
        let n = utf8_seq_len(s, i);
        if n > 0 {
            lemma_utf8_from(s, i + n);
            assert(vstd::utf8::pop_first_scalar(t) =~= s.skip(i + n));
        }
    } else {
        assert(t.len() == 0);
    }
}

fn utf8_seq_len_at(s: &[u8], i: usize) -> (r: usize)
    requires
        i < s@.len(),
    ensures
        r == utf8_seq_len(s@, i as int),
{
    let b0 = s[i];
    let n = s.len();
    if b0 < 0x80 {
        1
    } else if 0xC2 <= b0 && b0 <= 0xDF {
        if n - i > 1 && 0x80 <= s[i + 1] && s[i + 1] <= 0xBF { 2 } else { 0 }
    } else if 0xE0 <= b0 && b0 <= 0xEF {
        if n - i <= 2 {
            return 0;
        }
        let b1 = s[i + 1];
        let second_ok = if b0 == 0xE0 {
            0xA0 <= b1 && b1 <= 0xBF
        } else if b0 == 0xED {
            0x80 <= b1 && b1 <= 0x9F
        } else {
            0x80 <= b1 && b1 <= 0xBF
        };
        if second_ok && 0x80 <= s[i + 2] && s[i + 2] <= 0xBF { 3 } else { 0 }
    } else if 0xF0 <= b0 && b0 <= 0xF4 {
        if n - i <= 3 {
            return 0;
        }
        let b1 = s[i + 1];
        let second_ok = if b0 == 0xF0 {
            0x90 <= b1 && b1 <= 0xBF
        } else if b0 == 0xF4 {
            0x80 <= b1 && b1 <= 0x8F
        } else {
            0x80 <= b1 && b1 <= 0xBF
        };
        if second_ok && 0x80 <= s[i + 2] && s[i + 2] <= 0xBF && 0x80 <= s[i + 3] && s[i + 3] <= 0xBF { 4 } else { 0 }
    } else {
        0
    }
}

/// Whether `s` is well-formed UTF-8.
pub fn is_valid_utf8(s: &[u8]) -> (r: bool)
    ensures
        r == vstd::utf8::valid_utf8(s@),
{
    proof {
        lemma_utf8_from(s@, 0);
        assert(s@.skip(0) =~= s@);
    }
    let mut i: usize = 0;
    while i < s.len()
        invariant
            i <= s@.len(),
            valid_utf8_from(s@, 0) == valid_utf8_from(s@, i as int),
            vstd::utf8::valid_utf8(s@) == valid_utf8_from(s@, 0),
        decreases s@.len() - i,
    {
        let n = utf8_seq_len_at(s, i);
        if n == 0 {
            return false;
        }
        assert(i + n <= s@.len());
        i = i + n;
    }
    true
}

/// The bytes of `rec` before its first NUL, or all of them if it has none.
#[verifier::opaque]
pub open spec fn nul_terminated(rec: Seq<u8>) -> Seq<u8> {
    if exists|j: int| 0 <= j < rec.len() && rec[j] == 0 {
        rec.subrange(0, choose|j: int| 0 <= j < rec.len() && rec[j] == 0 && forall|m: int| 0 <= m < j ==> rec[m] != 0)
    } else {
        rec
    }
}

/// A NUL at `j` with none before it ends the name there.
pub proof fn lemma_nul_at(rec: Seq<u8>, j: int)
    requires
        0 <= j < rec.len(),
        rec[j] == 0,
        forall|m: int| 0 <= m < j ==> rec[m] != 0,
    ensures
        nul_terminated(rec) == rec.subrange(0, j),
{
    reveal(nul_terminated);
    let c = choose|c: int| 0 <= c < rec.len() && rec[c] == 0 && forall|m: int| 0 <= m < c ==> rec[m] != 0;
    assert(0 <= j < rec.len() && rec[j] == 0 && forall|m: int| 0 <= m < j ==> rec[m] != 0);
    if c < j {
        assert(rec[c] != 0);
    } else if c > j {
        assert(rec[j] != 0);
    }
}

/// Bytes with no NUL are all part of the name.
pub proof fn lemma_nul_none(rec: Seq<u8>)
    requires
        forall|m: int| 0 <= m < rec.len() ==> rec[m] != 0,
    ensures
        nul_terminated(rec) == rec,
{
    reveal(nul_terminated);
}

} // verus!
