//! The PS/2 keyboard: scancodes to characters, with the state of the
//! modifier keys. Reading the scancode from the data port, and showing the
//! character, are the caller's part.
use vstd::prelude::*;

verus! {

/// The data port, where scancodes are read.
pub const DATA_PORT: u16 = 0x60;
/// The scancode prefix of extended keys.
pub const EXTENDED_PREFIX: u16 = 0xe0;
/// The scancode of Caps Lock.
pub const CAPS_LOCK_CODE: u16 = 0x3A;

/// A run of keys with consecutive scancodes, from `first_scancode` on, and
/// the characters they give.
pub struct Keymap {
    pub first_scancode: u16,
    pub chars: Vec<u8>,
}

/// A table of keymaps as a specification sees it.
pub open spec fn keymaps_view(k: Seq<Keymap>) -> Seq<(u16, Seq<u8>)> {
    Seq::new(k.len(), |i: int| (k[i].first_scancode, k[i].chars@))
}

/// The character that `scancode` gives in the first keymap of `k` that holds
/// it (a keymap starting at scancode 0 holds nothing).
pub open spec fn spec_map_key(k: Seq<(u16, Seq<u8>)>, scancode: u16) -> Option<u8>
    decreases k.len(),
{
    if k.len() == 0 {
        None
    } else if k[0].0 != 0 && k[0].0 <= scancode < k[0].0 + k[0].1.len() {
        Some(k[0].1[scancode - k[0].0])
    } else {
        spec_map_key(k.skip(1), scancode)
    }
}

/// Keys that give the same character with or without Shift (letters are upper case; their case is handled apart).
pub open spec fn spec_invariant_keymap() -> Seq<(u16, Seq<u8>)> {
    seq![
        (0x01u16, seq![27u8]),
        (0x0eu16, seq![8u8]),
        (0x0fu16, seq![9u8, 81u8, 87u8, 69u8, 82u8, 84u8, 89u8, 85u8, 73u8, 79u8, 80u8]),
        (0x1cu16, seq![13u8]),
        (0x1eu16, seq![65u8, 83u8, 68u8, 70u8, 71u8, 72u8, 74u8, 75u8, 76u8]),
        (0x2cu16, seq![90u8, 88u8, 67u8, 86u8, 66u8, 78u8, 77u8]),
        (0x37u16, seq![42u8]),
        (0x39u16, seq![32u8]),
        (0x53u16, seq![127u8]),
        (0x00u16, Seq::<u8>::empty()),
    ]
}

/// Keys that give the same character with or without Shift (letters are upper case; their case is handled apart).
pub fn invariant_keymap() -> (r: Vec<Keymap>)
    ensures
        keymaps_view(r@) == spec_invariant_keymap(),
{
    let r = vec![
        Keymap { first_scancode: 0x01, chars: vec![27u8] },
        Keymap { first_scancode: 0x0e, chars: vec![8u8] },
        Keymap { first_scancode: 0x0f, chars: vec![9u8, 81u8, 87u8, 69u8, 82u8, 84u8, 89u8, 85u8, 73u8, 79u8, 80u8] },
        Keymap { first_scancode: 0x1c, chars: vec![13u8] },
        Keymap { first_scancode: 0x1e, chars: vec![65u8, 83u8, 68u8, 70u8, 71u8, 72u8, 74u8, 75u8, 76u8] },
        Keymap { first_scancode: 0x2c, chars: vec![90u8, 88u8, 67u8, 86u8, 66u8, 78u8, 77u8] },
        Keymap { first_scancode: 0x37, chars: vec![42u8] },
        Keymap { first_scancode: 0x39, chars: vec![32u8] },
        Keymap { first_scancode: 0x53, chars: vec![127u8] },
        Keymap { first_scancode: 0x00, chars: Vec::new() },
    ];
    assert(keymaps_view(r@) =~= spec_invariant_keymap()) by {
        assert(r@[0].chars@ =~= spec_invariant_keymap()[0].1);
        assert(r@[1].chars@ =~= spec_invariant_keymap()[1].1);
        assert(r@[2].chars@ =~= spec_invariant_keymap()[2].1);
        assert(r@[3].chars@ =~= spec_invariant_keymap()[3].1);
        assert(r@[4].chars@ =~= spec_invariant_keymap()[4].1);
        assert(r@[5].chars@ =~= spec_invariant_keymap()[5].1);
        assert(r@[6].chars@ =~= spec_invariant_keymap()[6].1);
        assert(r@[7].chars@ =~= spec_invariant_keymap()[7].1);
        assert(r@[8].chars@ =~= spec_invariant_keymap()[8].1);
        assert(r@[9].chars@ =~= spec_invariant_keymap()[9].1);
    }
    r
}

/// Characters of the keys whose character depends on Shift, without Shift.
pub open spec fn spec_unshifted_keymap() -> Seq<(u16, Seq<u8>)> {
    seq![
        (0x02u16, seq![49u8, 50u8, 51u8, 52u8, 53u8, 54u8, 55u8, 56u8, 57u8, 48u8, 45u8, 61u8]),
        (0x1au16, seq![91u8, 93u8]),
        (0x27u16, seq![59u8, 39u8, 96u8]),
        (0x2bu16, seq![92u8]),
        (0x33u16, seq![44u8, 46u8, 47u8]),
        (0x00u16, Seq::<u8>::empty()),
    ]
}

/// Characters of the keys whose character depends on Shift, without Shift.
pub fn unshifted_keymap() -> (r: Vec<Keymap>)
    ensures
        keymaps_view(r@) == spec_unshifted_keymap(),
{
    let r = vec![
        Keymap { first_scancode: 0x02, chars: vec![49u8, 50u8, 51u8, 52u8, 53u8, 54u8, 55u8, 56u8, 57u8, 48u8, 45u8, 61u8] },
        Keymap { first_scancode: 0x1a, chars: vec![91u8, 93u8] },
        Keymap { first_scancode: 0x27, chars: vec![59u8, 39u8, 96u8] },
        Keymap { first_scancode: 0x2b, chars: vec![92u8] },
        Keymap { first_scancode: 0x33, chars: vec![44u8, 46u8, 47u8] },
        Keymap { first_scancode: 0x00, chars: Vec::new() },
    ];
    assert(keymaps_view(r@) =~= spec_unshifted_keymap()) by {
        assert(r@[0].chars@ =~= spec_unshifted_keymap()[0].1);
        assert(r@[1].chars@ =~= spec_unshifted_keymap()[1].1);
        assert(r@[2].chars@ =~= spec_unshifted_keymap()[2].1);
        assert(r@[3].chars@ =~= spec_unshifted_keymap()[3].1);
        assert(r@[4].chars@ =~= spec_unshifted_keymap()[4].1);
        assert(r@[5].chars@ =~= spec_unshifted_keymap()[5].1);
    }
    r
}

/// Characters of the keys whose character depends on Shift, with Shift.
pub open spec fn spec_shifted_keymap() -> Seq<(u16, Seq<u8>)> {
    seq![
        (0x02u16, seq![33u8, 64u8, 35u8, 36u8, 37u8, 94u8, 38u8, 42u8, 40u8, 41u8, 95u8, 43u8]),
        (0x1au16, seq![123u8, 125u8]),
        (0x27u16, seq![58u8, 34u8, 126u8]),
        (0x2bu16, seq![124u8]),
        (0x33u16, seq![60u8, 62u8, 63u8]),
        (0x00u16, Seq::<u8>::empty()),
    ]
}

/// Characters of the keys whose character depends on Shift, with Shift.
pub fn shifted_keymap() -> (r: Vec<Keymap>)
    ensures
        keymaps_view(r@) == spec_shifted_keymap(),
{
    let r = vec![
        Keymap { first_scancode: 0x02, chars: vec![33u8, 64u8, 35u8, 36u8, 37u8, 94u8, 38u8, 42u8, 40u8, 41u8, 95u8, 43u8] },
        Keymap { first_scancode: 0x1a, chars: vec![123u8, 125u8] },
        Keymap { first_scancode: 0x27, chars: vec![58u8, 34u8, 126u8] },
        Keymap { first_scancode: 0x2b, chars: vec![124u8] },
        Keymap { first_scancode: 0x33, chars: vec![60u8, 62u8, 63u8] },
        Keymap { first_scancode: 0x00, chars: Vec::new() },
    ];
    assert(keymaps_view(r@) =~= spec_shifted_keymap()) by {
        assert(r@[0].chars@ =~= spec_shifted_keymap()[0].1);
        assert(r@[1].chars@ =~= spec_shifted_keymap()[1].1);
        assert(r@[2].chars@ =~= spec_shifted_keymap()[2].1);
        assert(r@[3].chars@ =~= spec_shifted_keymap()[3].1);
        assert(r@[4].chars@ =~= spec_shifted_keymap()[4].1);
        assert(r@[5].chars@ =~= spec_shifted_keymap()[5].1);
    }
    r
}

/// Scan the keymaps `k`, in order, for `scancode`.
pub fn map_key(k: &Vec<Keymap>, scancode: u16) -> (r: Option<u8>)
    ensures
        r == spec_map_key(keymaps_view(k@), scancode),
{
    let mut i: usize = 0;
    assert(keymaps_view(k@).skip(0) =~= keymaps_view(k@));
    while i < k.len()
        invariant
            i <= k@.len(),
            spec_map_key(keymaps_view(k@), scancode) == spec_map_key(keymaps_view(k@).skip(i as int), scancode),
        decreases k@.len() - i,
    {
        let first = k[i].first_scancode;
        let len = k[i].chars.len();
        let ghost rest = keymaps_view(k@).skip(i as int);
        assert(rest[0] == (first, k@[i as int].chars@));
        if first != 0 && scancode >= first && ((scancode - first) as usize) < len {
            return Some(k[i].chars[(scancode - first) as usize]);
        }
        assert(rest.skip(1) =~= keymaps_view(k@).skip(i + 1));
        i = i + 1;
    }
    None
}

/// The state of the modifier keys.
#[derive(Clone, Copy, Debug, PartialEq, Eq, Structural)]
pub struct KeyboardState {
    pub l_shift: bool,
    pub r_shift: bool,
    pub l_ctrl: bool,
    pub r_ctrl: bool,
    pub l_alt: bool,
    pub r_alt: bool,
    pub caps_lock: bool,
}

/// The lower-case form of ASCII byte `c`.
pub open spec fn ascii_lower(c: u8) -> u8 {
    if 0x41 <= c <= 0x5A {
        (c + 32) as u8
    } else {
        c
    }
}

/// The character that key code `code` (without the release bit) gives with
/// Shift held or not.
pub open spec fn key_char(code: u16, shift: bool) -> Option<u8> {
    match spec_map_key(spec_invariant_keymap(), code) {
        Some(c) => Some(c),
        None => if !shift {
            spec_map_key(spec_unshifted_keymap(), code)
        } else {
            spec_map_key(spec_shifted_keymap(), code)
        },
    }
}

/// The state after scancode `scancode`, and the character it types, if any.
/// Bit 7 marks a release; only the low 7 bits name the key. Caps Lock toggles
/// on press; a key with a character types it on press (lower case when Shift
/// and Caps Lock agree); a modifier records whether it is held.
pub open spec fn key_step(st: KeyboardState, scancode: u16) -> (KeyboardState, Option<u8>) {
    let shift = st.l_shift || st.r_shift;
    let release = scancode & 0x80 != 0;
    let code = scancode & 0x7F;
    if code == CAPS_LOCK_CODE {
        (KeyboardState { caps_lock: if release { st.caps_lock } else { !st.caps_lock }, ..st }, None)
    } else {
        match key_char(code, shift) {
            Some(c) => if release {
                (st, None)
            } else {
                (st, Some(if shift == st.caps_lock { ascii_lower(c) } else { c }))
            },
            None => (
                if code == 0x2A {
                    KeyboardState { l_shift: !release, ..st }
                } else if code == 0x36 {
                    KeyboardState { r_shift: !release, ..st }
                } else if code == 0x38 {
                    KeyboardState { l_alt: !release, ..st }
                } else if code == 0xE038 {
                    KeyboardState { r_alt: !release, ..st }
                } else if code == 0x1D {
                    KeyboardState { l_ctrl: !release, ..st }
                } else if code == 0xE01D {
                    KeyboardState { r_ctrl: !release, ..st }
                } else {
                    st
                },
                None,
            ),
        }
    }
}

/// Releasing a key (bit 7 of the scancode set) never changes Caps Lock and
/// never types a character.
pub proof fn lemma_release_keeps_caps_lock(st: KeyboardState, scancode: u16)
    requires
        scancode & 0x80 != 0,
    ensures
        key_step(st, scancode).0.caps_lock == st.caps_lock,
        key_step(st, scancode).1 is None,
{
}

/// Pressing Caps Lock flips it and changes nothing else.
pub proof fn lemma_caps_lock_press_toggles(st: KeyboardState, scancode: u16)
    requires
        scancode & 0x80 == 0,
        scancode & 0x7F == CAPS_LOCK_CODE,
    ensures
        key_step(st, scancode).0 == (KeyboardState { caps_lock: !st.caps_lock, ..st }),
        key_step(st, scancode).1 is None,
{
}

/// Without Shift, tapping Caps Lock (press 0x3A, release 0xBA) and then
/// pressing Q (0x10) types the other case of the letter than before the tap:
/// upper case where Caps Lock was off, lower case where it was on.
pub proof fn lemma_caps_lock_tap_changes_case(st: KeyboardState)
    requires
        !st.l_shift,
        !st.r_shift,
    ensures
        ({
            let s1 = key_step(st, 0x3A).0;
            let s2 = key_step(s1, 0xBA).0;
            &&& s2.caps_lock == !st.caps_lock
            &&& key_step(s2, 0x10).1 == Some(if st.caps_lock { 113u8 } else { 81u8 })
        }),
{
    assert(0x3Au16 & 0x80 == 0 && 0x3Au16 & 0x7F == 0x3A) by (bit_vector);
    assert(0xBAu16 & 0x80 != 0 && 0xBAu16 & 0x7F == 0x3A) by (bit_vector);
    assert(0x10u16 & 0x80 == 0 && 0x10u16 & 0x7F == 0x10) by (bit_vector);
    let k = spec_invariant_keymap();
    assert(spec_map_key(k, 0x10) == Some(81u8)) by {
        reveal_with_fuel(spec_map_key, 4);
        assert(k.skip(1).skip(1)[0] == k[2]);
        assert(k.skip(1)[0] == k[1]);
    }
}

impl KeyboardState {
    /// No modifier held, Caps Lock off.
    pub fn new() -> (r: KeyboardState)
        ensures
            !r.l_shift && !r.r_shift && !r.l_ctrl && !r.r_ctrl && !r.l_alt && !r.r_alt && !r.caps_lock,
    {
        KeyboardState { l_shift: false, r_shift: false, l_ctrl: false, r_ctrl: false, l_alt: false, r_alt: false, caps_lock: false }
    }

    /// Handle scancode `scancode` (with its extended prefix in the high byte,
    /// if any): update the modifiers, and give the character typed, if any.
    pub fn handle_scancode(&mut self, scancode: u16) -> (r: Option<u8>)
        ensures
            (*final(self), r) == key_step(*old(self), scancode),
    {
        let shift = self.l_shift || self.r_shift;
        // a set bit 7 means the key was released
        let release = scancode & 0x80 != 0;
        let code = scancode & 0x7F;
        if code == CAPS_LOCK_CODE {
            if !release {
                self.caps_lock = !self.caps_lock;
            }
            return None;
        }
        let c = match map_key(&invariant_keymap(), code) {
            Some(c) => Some(c),
            None => if !shift {
                map_key(&unshifted_keymap(), code)
            } else {
                map_key(&shifted_keymap(), code)
            },
        };
        match c {
            Some(c) => {
                if release {
                    return None;
                }
                if shift == self.caps_lock {
                    if 0x41 <= c && c <= 0x5A {
                        return Some(c + 32);
                    }
                }
                Some(c)
            },
            None => {
                if code == 0x2A {
                    self.l_shift = !release;
                } else if code == 0x36 {
                    self.r_shift = !release;
                } else if code == 0x38 {
                    self.l_alt = !release;
                } else if code == 0xE038 {
                    self.r_alt = !release;
                } else if code == 0x1D {
                    self.l_ctrl = !release;
                } else if code == 0xE01D {
                    self.r_ctrl = !release;
                }
                None
            },
        }
    }
}

/// The full scancode from the first byte read and, for an extended key
/// (first byte 0xe0), the second.
pub fn scancode_of(first: u8, second: u8) -> (r: u16)
    ensures
        r == if first as u16 == EXTENDED_PREFIX {
            ((EXTENDED_PREFIX as int) * 256 + second as int) as u16
        } else {
            first as u16
        },
{
    let code = first as u16;
    if code == EXTENDED_PREFIX {
        let r = (code << 8) | (second as u16);
        assert(r == ((EXTENDED_PREFIX as int) * 256 + second as int) as u16) by (bit_vector)
            requires
                code == 0xe0u16,
                r == (code << 8) | (second as u16),
        ;
        r
    } else {
        code
    }
}

} // verus!
