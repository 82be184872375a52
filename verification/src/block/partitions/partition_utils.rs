//! Conversions between CHS (cylinder, head, sector) and LBA disk addresses,
//! for a geometry of 16 heads and 63 sectors per track.
use vstd::prelude::*;

verus! {

/// The LBA address of cylinder `c`, head `h`, sector `s` (sectors count from 1).
pub open spec fn spec_chs_to_lba(c: int, h: int, s: int) -> int {
    (c * 16 + h) * 63 + s - 1
}

/// Converts a CHS address to an LBA address.
pub fn chs_to_lba(cylinder: u8, head: u8, sector: u8) -> (lba: u32)
    requires
        sector >= 1,
    ensures
        lba == spec_chs_to_lba(cylinder as int, head as int, sector as int),
{
    (cylinder as u32 * 16 + head as u32) * 63 + sector as u32 - 1
}

/// Converts an LBA address to a CHS address. The cylinder is the quotient of
/// `lba / (16 * 63)` truncated to eight bits.
pub fn lba_to_chs(lba: u32) -> (chs: (u8, u8, u8))
    ensures
        chs.0 == (lba / 63 / 16) % 256,
        chs.1 == (lba / 63) % 16,
        chs.2 == lba % 63 + 1,
{
    let sector = lba % 63 + 1;
    let temp = lba / 63;
    let head = temp % 16;
    let cylinder = temp / 16;
    let c8 = (cylinder % 256) as u8;
    (c8, head as u8, sector as u8)
}

/// Converting a CHS address with a valid head and sector to LBA and back gives it back.
pub proof fn lemma_chs_lba_roundtrip(c: u8, h: u8, s: u8)
    requires
        h < 16,
        1 <= s <= 63,
    ensures
        ({
            let lba = spec_chs_to_lba(c as int, h as int, s as int);
            &&& (lba / 63 / 16) % 256 == c
            &&& (lba / 63) % 16 == h
            &&& lba % 63 + 1 == s
        }),
{
    let lba = spec_chs_to_lba(c as int, h as int, s as int);
    let t = c as int * 16 + h as int;
    assert(lba == t * 63 + (s - 1));
    vstd::arithmetic::div_mod::lemma_fundamental_div_mod_converse(lba, 63, t, s - 1);
    vstd::arithmetic::div_mod::lemma_fundamental_div_mod_converse(t, 16, c as int, h as int);
}

/// Converting an LBA address below `256 * 16 * 63` to CHS and back gives it back.
pub proof fn lemma_lba_chs_roundtrip(lba: u32)
    requires
        lba < 256 * 16 * 63,
    ensures
        spec_chs_to_lba(((lba / 63 / 16) % 256) as int, ((lba / 63) % 16) as int, (lba % 63 + 1) as int) == lba,
{
    let t = lba / 63;
    assert(lba == t * 63 + lba % 63);
    assert(t == (t / 16) * 16 + t % 16);
    assert(t / 16 < 256);
}

} // verus!
