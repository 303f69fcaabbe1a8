//! UTF-8 encoding of characters.
use vstd::prelude::*;

verus! {

/// The UTF-8 encoding of one character.
pub open spec fn utf8_bytes(c: char) -> Seq<u8> {
    let cp = c as u32;
    if cp < 0x80 {
        seq![cp as u8]
    } else if cp < 0x800 {
        seq![(0xC0 + cp / 64) as u8, (0x80 + cp % 64) as u8]
    } else if cp < 0x10000 {
        seq![(0xE0 + cp / 4096) as u8, (0x80 + (cp / 64) % 64) as u8, (0x80 + cp % 64) as u8]
    } else {
        seq![
            (0xF0 + cp / 262144) as u8,
            (0x80 + (cp / 4096) % 64) as u8,
            (0x80 + (cp / 64) % 64) as u8,
            (0x80 + cp % 64) as u8,
        ]
    }
}

/// Encodes one character as UTF-8 (`char::encode_utf8`).
pub fn encode_char(c: char) -> (r: Vec<u8>)
    ensures
        r@ == utf8_bytes(c),
{
    let cp = c as u32;
    proof {
        assert(cp <= 0x10FFFF);
    }
    if cp < 0x80 {
        vec![cp as u8]
    } else if cp < 0x800 {
        vec![(0xC0 + cp / 64) as u8, (0x80 + cp % 64) as u8]
    } else if cp < 0x10000 {
        vec![(0xE0 + cp / 4096) as u8, (0x80 + (cp / 64) % 64) as u8, (0x80 + cp % 64) as u8]
    } else {
        vec![
            (0xF0 + cp / 262144) as u8,
            (0x80 + (cp / 4096) % 64) as u8,
            (0x80 + (cp / 64) % 64) as u8,
            (0x80 + cp % 64) as u8,
        ]
    }
}

} // verus!
