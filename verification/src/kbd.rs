//! PC keyboard: decoding scan codes into characters.
use vstd::prelude::*;
use crate::console::{Input, ConsoleEvents, consoleintr, consoleintr_effect, INPUT_BUF};

verus! {

/// Keyboard controller status port.
pub const KBSTATP: u16 = 0x64;
/// Status bit: data in buffer.
pub const KBS_DIB: u8 = 0x01;
/// Keyboard data port.
pub const KBDATAP: u16 = 0x60;

pub const NO: u8 = 0;
pub const SHIFT: u8 = 1;
pub const CTL: u8 = 2;
pub const ALT: u8 = 4;
pub const CAPSLOCK: u8 = 8;
pub const NUMLOCK: u8 = 16;
pub const SCROLLLOCK: u8 = 32;
pub const E0ESC: u8 = 64;

pub const KEY_HOME: u8 = 0xE0;
pub const KEY_END: u8 = 0xE1;
pub const KEY_UP: u8 = 0xE2;
pub const KEY_DN: u8 = 0xE3;
pub const KEY_LF: u8 = 0xE4;
pub const KEY_RT: u8 = 0xE5;
pub const KEY_PGUP: u8 = 0xE6;
pub const KEY_PGDN: u8 = 0xE7;
pub const KEY_INS: u8 = 0xE8;
pub const KEY_DEL: u8 = 0xE9;

/// Control-x: `c('A')` is control-A.  Characters are taken by their low
/// byte.
pub fn c(x: char) -> (r: u8)
    requires
        (x as u32) % 256 >= 64,
    ensures
        r == (x as u32) % 256 - 64,
{
    let v: u32 = (x as u32) % 256;
    (v - 64) as u8
}

/// Modifier bit that a key code sets while the key is held.
pub open spec fn shiftcode(d: u8) -> u8 {
    match d {
        0x1D => 0x02,
        0x2A => 0x01,
        0x36 => 0x01,
        0x38 => 0x04,
        0x9D => 0x02,
        0xB8 => 0x04,
        _ => 0,
    }
}

fn shiftcode_of(d: u8) -> (r: u8)
    ensures
        r == shiftcode(d),
{
    match d {
        0x1D => 0x02,
        0x2A => 0x01,
        0x36 => 0x01,
        0x38 => 0x04,
        0x9D => 0x02,
        0xB8 => 0x04,
        _ => 0,
    }
}

/// Lock bit that a key code toggles.
pub open spec fn togglecode(d: u8) -> u8 {
    match d {
        0x3A => 0x08,
        0x45 => 0x10,
        0x46 => 0x20,
        _ => 0,
    }
}

fn togglecode_of(d: u8) -> (r: u8)
    ensures
        r == togglecode(d),
{
    match d {
        0x3A => 0x08,
        0x45 => 0x10,
        0x46 => 0x20,
        _ => 0,
    }
}

/// Character of a key code with no modifier held.
pub open spec fn normalmap(d: u8) -> u8 {
    match d {
        0x01 => 0x1B,
        0x02 => 0x31,
        0x03 => 0x32,
        0x04 => 0x33,
        0x05 => 0x34,
        0x06 => 0x35,
        0x07 => 0x36,
        0x08 => 0x37,
        0x09 => 0x38,
        0x0A => 0x39,
        0x0B => 0x30,
        0x0C => 0x2D,
        0x0D => 0x3D,
        0x0F => 0x09,
        0x10 => 0x71,
        0x11 => 0x77,
        0x12 => 0x65,
        0x13 => 0x72,
        0x14 => 0x74,
        0x15 => 0x79,
        0x16 => 0x75,
        0x17 => 0x69,
        0x18 => 0x6F,
        0x19 => 0x70,
        0x1A => 0x5B,
        0x1B => 0x5D,
        0x1C => 0x0A,
        0x1E => 0x61,
        0x1F => 0x73,
        0x20 => 0x64,
        0x21 => 0x66,
        0x22 => 0x67,
        0x23 => 0x68,
        0x24 => 0x6A,
        0x25 => 0x6B,
        0x26 => 0x6C,
        0x27 => 0x3B,
        0x28 => 0x27,
        0x29 => 0x60,
        0x2B => 0x5C,
        0x2C => 0x7A,
        0x2D => 0x78,
        0x2E => 0x63,
        0x2F => 0x76,
        0x30 => 0x62,
        0x31 => 0x6E,
        0x32 => 0x6D,
        0x33 => 0x2C,
        0x34 => 0x2E,
        0x35 => 0x2F,
        0x37 => 0x2A,
        0x39 => 0x20,
        0x47 => 0x37,
        0x48 => 0x38,
        0x49 => 0x39,
        0x4A => 0x2D,
        0x4B => 0x34,
        0x4C => 0x35,
        0x4D => 0x36,
        0x4E => 0x2B,
        0x4F => 0x31,
        0x50 => 0x32,
        0x51 => 0x33,
        0x52 => 0x30,
        0x53 => 0x2E,
        0x97 => 0xE0,
        0x9C => 0x0A,
        0xB5 => 0x2F,
        0xC8 => 0xE2,
        0xC9 => 0xE6,
        0xCB => 0xE4,
        0xCD => 0xE5,
        0xCF => 0xE1,
        0xD0 => 0xE3,
        0xD1 => 0xE7,
        0xD2 => 0xE8,
        0xD3 => 0xE9,
        _ => 0,
    }
}

fn normalmap_of(d: u8) -> (r: u8)
    ensures
        r == normalmap(d),
{
    match d {
        0x01 => 0x1B,
        0x02 => 0x31,
        0x03 => 0x32,
        0x04 => 0x33,
        0x05 => 0x34,
        0x06 => 0x35,
        0x07 => 0x36,
        0x08 => 0x37,
        0x09 => 0x38,
        0x0A => 0x39,
        0x0B => 0x30,
        0x0C => 0x2D,
        0x0D => 0x3D,
        0x0F => 0x09,
        0x10 => 0x71,
        0x11 => 0x77,
        0x12 => 0x65,
        0x13 => 0x72,
        0x14 => 0x74,
        0x15 => 0x79,
        0x16 => 0x75,
        0x17 => 0x69,
        0x18 => 0x6F,
        0x19 => 0x70,
        0x1A => 0x5B,
        0x1B => 0x5D,
        0x1C => 0x0A,
        0x1E => 0x61,
        0x1F => 0x73,
        0x20 => 0x64,
        0x21 => 0x66,
        0x22 => 0x67,
        0x23 => 0x68,
        0x24 => 0x6A,
        0x25 => 0x6B,
        0x26 => 0x6C,
        0x27 => 0x3B,
        0x28 => 0x27,
        0x29 => 0x60,
        0x2B => 0x5C,
        0x2C => 0x7A,
        0x2D => 0x78,
        0x2E => 0x63,
        0x2F => 0x76,
        0x30 => 0x62,
        0x31 => 0x6E,
        0x32 => 0x6D,
        0x33 => 0x2C,
        0x34 => 0x2E,
        0x35 => 0x2F,
        0x37 => 0x2A,
        0x39 => 0x20,
        0x47 => 0x37,
        0x48 => 0x38,
        0x49 => 0x39,
        0x4A => 0x2D,
        0x4B => 0x34,
        0x4C => 0x35,
        0x4D => 0x36,
        0x4E => 0x2B,
        0x4F => 0x31,
        0x50 => 0x32,
        0x51 => 0x33,
        0x52 => 0x30,
        0x53 => 0x2E,
        0x97 => 0xE0,
        0x9C => 0x0A,
        0xB5 => 0x2F,
        0xC8 => 0xE2,
        0xC9 => 0xE6,
        0xCB => 0xE4,
        0xCD => 0xE5,
        0xCF => 0xE1,
        0xD0 => 0xE3,
        0xD1 => 0xE7,
        0xD2 => 0xE8,
        0xD3 => 0xE9,
        _ => 0,
    }
}

/// Character of a key code with shift held.
pub open spec fn shiftmap(d: u8) -> u8 {
    match d {
        0x01 => 0x1B,
        0x02 => 0x21,
        0x03 => 0x40,
        0x04 => 0x23,
        0x05 => 0x24,
        0x06 => 0x25,
        0x07 => 0x5E,
        0x08 => 0x26,
        0x09 => 0x2A,
        0x0A => 0x28,
        0x0B => 0x29,
        0x0C => 0x5F,
        0x0D => 0x2B,
        0x0F => 0x09,
        0x10 => 0x51,
        0x11 => 0x57,
        0x12 => 0x45,
        0x13 => 0x52,
        0x14 => 0x54,
        0x15 => 0x59,
        0x16 => 0x55,
        0x17 => 0x49,
        0x18 => 0x4F,
        0x19 => 0x50,
        0x1A => 0x7B,
        0x1B => 0x7D,
        0x1C => 0x0A,
        0x1E => 0x41,
        0x1F => 0x53,
        0x20 => 0x44,
        0x21 => 0x46,
        0x22 => 0x47,
        0x23 => 0x48,
        0x24 => 0x4A,
        0x25 => 0x4B,
        0x26 => 0x4C,
        0x27 => 0x3A,
        0x28 => 0x22,
        0x29 => 0x7E,
        0x2B => 0x7C,
        0x2C => 0x5A,
        0x2D => 0x58,
        0x2E => 0x43,
        0x2F => 0x56,
        0x30 => 0x42,
        0x31 => 0x4E,
        0x32 => 0x4D,
        0x33 => 0x3C,
        0x34 => 0x3E,
        0x35 => 0x3F,
        0x37 => 0x2A,
        0x39 => 0x20,
        0x47 => 0x37,
        0x48 => 0x38,
        0x49 => 0x39,
        0x4A => 0x2D,
        0x4B => 0x34,
        0x4C => 0x35,
        0x4D => 0x36,
        0x4E => 0x2B,
        0x4F => 0x31,
        0x50 => 0x32,
        0x51 => 0x33,
        0x52 => 0x30,
        0x53 => 0x2E,
        0x97 => 0xE0,
        0x9C => 0x0A,
        0xB5 => 0x2F,
        0xC8 => 0xE2,
        0xC9 => 0xE6,
        0xCB => 0xE4,
        0xCD => 0xE5,
        0xCF => 0xE1,
        0xD0 => 0xE3,
        0xD1 => 0xE7,
        0xD2 => 0xE8,
        0xD3 => 0xE9,
        _ => 0,
    }
}

fn shiftmap_of(d: u8) -> (r: u8)
    ensures
        r == shiftmap(d),
{
    match d {
        0x01 => 0x1B,
        0x02 => 0x21,
        0x03 => 0x40,
        0x04 => 0x23,
        0x05 => 0x24,
        0x06 => 0x25,
        0x07 => 0x5E,
        0x08 => 0x26,
        0x09 => 0x2A,
        0x0A => 0x28,
        0x0B => 0x29,
        0x0C => 0x5F,
        0x0D => 0x2B,
        0x0F => 0x09,
        0x10 => 0x51,
        0x11 => 0x57,
        0x12 => 0x45,
        0x13 => 0x52,
        0x14 => 0x54,
        0x15 => 0x59,
        0x16 => 0x55,
        0x17 => 0x49,
        0x18 => 0x4F,
        0x19 => 0x50,
        0x1A => 0x7B,
        0x1B => 0x7D,
        0x1C => 0x0A,
        0x1E => 0x41,
        0x1F => 0x53,
        0x20 => 0x44,
        0x21 => 0x46,
        0x22 => 0x47,
        0x23 => 0x48,
        0x24 => 0x4A,
        0x25 => 0x4B,
        0x26 => 0x4C,
        0x27 => 0x3A,
        0x28 => 0x22,
        0x29 => 0x7E,
        0x2B => 0x7C,
        0x2C => 0x5A,
        0x2D => 0x58,
        0x2E => 0x43,
        0x2F => 0x56,
        0x30 => 0x42,
        0x31 => 0x4E,
        0x32 => 0x4D,
        0x33 => 0x3C,
        0x34 => 0x3E,
        0x35 => 0x3F,
        0x37 => 0x2A,
        0x39 => 0x20,
        0x47 => 0x37,
        0x48 => 0x38,
        0x49 => 0x39,
        0x4A => 0x2D,
        0x4B => 0x34,
        0x4C => 0x35,
        0x4D => 0x36,
        0x4E => 0x2B,
        0x4F => 0x31,
        0x50 => 0x32,
        0x51 => 0x33,
        0x52 => 0x30,
        0x53 => 0x2E,
        0x97 => 0xE0,
        0x9C => 0x0A,
        0xB5 => 0x2F,
        0xC8 => 0xE2,
        0xC9 => 0xE6,
        0xCB => 0xE4,
        0xCD => 0xE5,
        0xCF => 0xE1,
        0xD0 => 0xE3,
        0xD1 => 0xE7,
        0xD2 => 0xE8,
        0xD3 => 0xE9,
        _ => 0,
    }
}

/// Character of a key code with control held.
pub open spec fn ctlmap(d: u8) -> u8 {
    match d {
        0x10 => 0x11,
        0x11 => 0x17,
        0x12 => 0x05,
        0x13 => 0x12,
        0x14 => 0x14,
        0x15 => 0x19,
        0x16 => 0x15,
        0x17 => 0x09,
        0x18 => 0x0F,
        0x19 => 0x10,
        0x1C => 0x0D,
        0x1E => 0x01,
        0x1F => 0x13,
        0x20 => 0x04,
        0x21 => 0x06,
        0x22 => 0x07,
        0x23 => 0x08,
        0x24 => 0x0A,
        0x25 => 0x0B,
        0x26 => 0x0C,
        0x2B => 0x1C,
        0x2C => 0x1A,
        0x2D => 0x18,
        0x2E => 0x03,
        0x2F => 0x16,
        0x30 => 0x02,
        0x31 => 0x0E,
        0x32 => 0x0D,
        0x35 => 0xEF,
        0x97 => 0xE0,
        0x9C => 0x0D,
        0xB5 => 0xEF,
        0xC8 => 0xE2,
        0xC9 => 0xE6,
        0xCB => 0xE4,
        0xCD => 0xE5,
        0xCF => 0xE1,
        0xD0 => 0xE3,
        0xD1 => 0xE7,
        0xD2 => 0xE8,
        0xD3 => 0xE9,
        _ => 0,
    }
}

fn ctlmap_of(d: u8) -> (r: u8)
    ensures
        r == ctlmap(d),
{
    match d {
        0x10 => 0x11,
        0x11 => 0x17,
        0x12 => 0x05,
        0x13 => 0x12,
        0x14 => 0x14,
        0x15 => 0x19,
        0x16 => 0x15,
        0x17 => 0x09,
        0x18 => 0x0F,
        0x19 => 0x10,
        0x1C => 0x0D,
        0x1E => 0x01,
        0x1F => 0x13,
        0x20 => 0x04,
        0x21 => 0x06,
        0x22 => 0x07,
        0x23 => 0x08,
        0x24 => 0x0A,
        0x25 => 0x0B,
        0x26 => 0x0C,
        0x2B => 0x1C,
        0x2C => 0x1A,
        0x2D => 0x18,
        0x2E => 0x03,
        0x2F => 0x16,
        0x30 => 0x02,
        0x31 => 0x0E,
        0x32 => 0x0D,
        0x35 => 0xEF,
        0x97 => 0xE0,
        0x9C => 0x0D,
        0xB5 => 0xEF,
        0xC8 => 0xE2,
        0xC9 => 0xE6,
        0xCB => 0xE4,
        0xCD => 0xE5,
        0xCF => 0xE1,
        0xD0 => 0xE3,
        0xD1 => 0xE7,
        0xD2 => 0xE8,
        0xD3 => 0xE9,
        _ => 0,
    }
}

/// Character for key code `d` under modifier state `shift`: control
/// wins over shift.
pub open spec fn charcode(shift: u8, d: u8) -> u8 {
    let m = shift & (CTL | SHIFT);
    if m == 0 {
        normalmap(d)
    } else if m == 1 {
        shiftmap(d)
    } else {
        ctlmap(d)
    }
}

/// Caps lock swaps the case of letters.
pub open spec fn caps(shift: u8, ch: u8) -> u8 {
    if shift & CAPSLOCK != 0 {
        if 97 <= ch <= 122 {
            (ch - 32) as u8
        } else if 65 <= ch <= 90 {
            (ch + 32) as u8
        } else {
            ch
        }
    } else {
        ch
    }
}

/// The character `kbdgetc` returns for status `st`, data byte `data`
/// and modifier state `shift`.
pub open spec fn kbd_char(shift: u8, st: u8, data: u8) -> i32 {
    if st & KBS_DIB == 0 {
        -1i32
    } else if data == 0xE0 || data & 0x80 != 0 {
        0
    } else {
        let esc = shift & E0ESC != 0;
        let d: u8 = if esc { data | 0x80 } else { data };
        let s0: u8 = if esc { shift & !E0ESC } else { shift };
        let s1: u8 = (s0 | shiftcode(d)) ^ togglecode(d);
        caps(s1, charcode(s1, d)) as i32
    }
}

/// The modifier state after `kbdgetc` handled status `st` and data byte
/// `data` in state `shift`.
pub open spec fn kbd_shift(shift: u8, st: u8, data: u8) -> u8 {
    if st & KBS_DIB == 0 {
        shift
    } else if data == 0xE0 {
        shift | E0ESC
    } else if data & 0x80 != 0 {
        let d = if shift & E0ESC != 0 { data } else { data & 0x7F };
        shift & !(shiftcode(d) | E0ESC)
    } else {
        let esc = shift & E0ESC != 0;
        let d: u8 = if esc { data | 0x80 } else { data };
        let s0: u8 = if esc { shift & !E0ESC } else { shift };
        (s0 | shiftcode(d)) ^ togglecode(d)
    }
}

/// Decodes one keyboard event, given the controller status `st` and the
/// data byte `data` it holds, updating the modifier state `shift`.
/// Returns -1 when no data is waiting, 0 for an escape prefix, a release or
/// a key with no character, and otherwise the character.
pub fn kbdgetc(shift: &mut u8, st: u8, data: u8) -> (r: i32)
    ensures
        r == kbd_char(*old(shift), st, data),
        *final(shift) == kbd_shift(*old(shift), st, data),
        st & KBS_DIB == 0 ==> r == -1 && *final(shift) == *old(shift),
        st & KBS_DIB != 0 && data == 0xE0 ==> r == 0 && *final(shift) == *old(shift) | E0ESC,
        st & KBS_DIB != 0 && data != 0xE0 && data & 0x80 != 0 ==> ({
            let d = if *old(shift) & E0ESC != 0 { data } else { data & 0x7F };
            r == 0 && *final(shift) == *old(shift) & !(shiftcode(d) | E0ESC)
        }),
        st & KBS_DIB != 0 && data != 0xE0 && data & 0x80 == 0 ==> ({
            let esc = *old(shift) & E0ESC != 0;
            let d: u8 = if esc { data | 0x80 } else { data };
            let s0: u8 = if esc { *old(shift) & !E0ESC } else { *old(shift) };
            let s1: u8 = (s0 | shiftcode(d)) ^ togglecode(d);
            &&& *final(shift) == s1
            &&& r == caps(s1, charcode(s1, d)) as i32
        }),
{
    if st & KBS_DIB == 0 {
        return -1;
    }
    let mut d = data;
    if d == 0xE0 {
        *shift = *shift | E0ESC;
        return 0;
    } else if d & 0x80 != 0 {
        d = if *shift & E0ESC != 0 {
            d
        } else {
            d & 0x7F
        };
        *shift = *shift & !(shiftcode_of(d) | E0ESC);
        return 0;
    } else if *shift & E0ESC != 0 {
        d = d | 0x80;
        *shift = *shift & !E0ESC;
    }
    *shift = *shift | shiftcode_of(d);
    *shift = *shift ^ togglecode_of(d);
    let m = *shift & (CTL | SHIFT);
    let mut ch = if m == 0 {
        normalmap_of(d)
    } else if m == 1 {
        shiftmap_of(d)
    } else {
        ctlmap_of(d)
    };
    if *shift & CAPSLOCK != 0 {
        if 97 <= ch && ch <= 122 {
            ch = ch - 32;
        } else if 65 <= ch && ch <= 90 {
            ch = ch + 32;
        }
    }
    ch as i32
}

/// Handles one keyboard interrupt step: decodes the event the controller
/// holds, as `kbdgetc` does, and hands the character to `consoleintr`.
/// Returns `None` when no data was waiting: the interrupt is done.
pub fn kbdintr(shift: &mut u8, input: &mut Input, st: u8, data: u8) -> (r: Option<ConsoleEvents>)
    requires
        old(input).wf(),
        old(input).e < u32::MAX,
        old(input).r + INPUT_BUF <= u32::MAX,
    ensures
        *final(shift) == kbd_shift(*old(shift), st, data),
        r is None <==> kbd_char(*old(shift), st, data) < 0,
        r is None ==> *final(input) == *old(input),
        r is Some ==> consoleintr_effect(*old(input), *final(input), kbd_char(*old(shift), st, data), r->0),
{
    let c = kbdgetc(shift, st, data);
    if c < 0 {
        return None;
    }
    Some(consoleintr(input, c))
}

/// Facts about the modifier bits the decoding of a plain key press reads.
proof fn lemma_plain_key_bits(x: u8)
    by (bit_vector)
    ensures
        x < 0x80 ==> x & 0x80 == 0,
        2u8 | 1u8 == 3u8,
        0u8 & 0x40 == 0 && (0u8 | 0u8) ^ 0u8 == 0 && 0u8 & 3 == 0 && 0u8 & 8 == 0,
        1u8 & 0x40 == 0 && (1u8 | 0u8) ^ 0u8 == 1 && 1u8 & 3 == 1 && 1u8 & 8 == 0,
        2u8 & 0x40 == 0 && (2u8 | 0u8) ^ 0u8 == 2 && 2u8 & 3 == 2 && 2u8 & 8 == 0,
        8u8 & 0x40 == 0 && (8u8 | 0u8) ^ 0u8 == 8 && 8u8 & 3 == 0 && 8u8 & 8 != 0,
{
}

/// The letter keys decode as on a PC keyboard (scan code set 1): the top
/// row 0x10..0x19 is `qwertyuiop`, the middle row 0x1E..0x26 `asdfghjkl`
/// and the bottom row 0x2C..0x32 `zxcvbnm`.  With no modifier a key gives
/// its lowercase letter; with shift or caps lock, the uppercase letter;
/// with control, the control code (the letter's position in the alphabet).
pub proof fn lemma_letter_keys(st: u8, row: int, i: int)
    requires
        st & KBS_DIB != 0,
        0 <= row < 3,
        0 <= i < (if row == 0 { 10int } else if row == 1 { 9int } else { 7int }),
    ensures
        ({
            let first: int = if row == 0 { 0x10 } else if row == 1 { 0x1E } else { 0x2C };
            let letters: Seq<char> = if row == 0 {
                seq!['q', 'w', 'e', 'r', 't', 'y', 'u', 'i', 'o', 'p']
            } else if row == 1 {
                seq!['a', 's', 'd', 'f', 'g', 'h', 'j', 'k', 'l']
            } else {
                seq!['z', 'x', 'c', 'v', 'b', 'n', 'm']
            };
            let code = (first + i) as u8;
            let lower = letters[i] as int;
            &&& kbd_char(0, st, code) == lower
            &&& kbd_char(SHIFT, st, code) == lower - 32
            &&& kbd_char(CAPSLOCK, st, code) == lower - 32
            &&& kbd_char(CTL, st, code) == lower - 96
        }),
{
    let first: int = if row == 0 { 0x10 } else if row == 1 { 0x1E } else { 0x2C };
    let code = (first + i) as u8;
    lemma_plain_key_bits(code);
    assert(code < 0x80);
    if row == 0 {
        assert(i == 0 || i == 1 || i == 2 || i == 3 || i == 4 || i == 5 || i == 6 || i == 7 || i == 8 || i == 9);
    } else if row == 1 {
        assert(i == 0 || i == 1 || i == 2 || i == 3 || i == 4 || i == 5 || i == 6 || i == 7 || i == 8);
    } else {
        assert(i == 0 || i == 1 || i == 2 || i == 3 || i == 4 || i == 5 || i == 6);
    }
}

/// The number row 0x02..0x0B gives `1234567890`, and with shift held
/// `!@#$%^&*()`; the space bar (0x39) gives a space, Enter (0x1C) a
/// newline, Escape (0x01) the escape character and Tab (0x0F) a tab.
pub proof fn lemma_number_keys(st: u8, i: int)
    requires
        st & KBS_DIB != 0,
        0 <= i < 10,
    ensures
        kbd_char(0, st, (0x02 + i) as u8) == seq!['1', '2', '3', '4', '5', '6', '7', '8', '9', '0'][i] as int,
        kbd_char(SHIFT, st, (0x02 + i) as u8) == seq!['!', '@', '#', '$', '%', '^', '&', '*', '(', ')'][i] as int,
        kbd_char(0, st, 0x39) == ' ' as int,
        kbd_char(0, st, 0x1C) == '\n' as int,
        kbd_char(0, st, 0x01) == 0x1B,
        kbd_char(0, st, 0x0F) == '\t' as int,
{
    let code = (0x02 + i) as u8;
    lemma_plain_key_bits(code);
    lemma_plain_key_bits(0x39);
    lemma_plain_key_bits(0x1C);
    lemma_plain_key_bits(0x01);
    lemma_plain_key_bits(0x0F);
    assert(i == 0 || i == 1 || i == 2 || i == 3 || i == 4 || i == 5 || i == 6 || i == 7 || i == 8 || i == 9);
}

} // verus!
