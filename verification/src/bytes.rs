//! Little-endian encoding of 32-bit words into byte buffers, as uniform and
//! vertex data is laid out for the device.

use vstd::prelude::*;

verus! {

/// Byte `i` (0-based, little-endian) of the word `w`.
pub open spec fn le_byte(w: u32, i: int) -> u8
    recommends
        0 <= i < 4,
{
    if i == 0 {
        (w % 0x100) as u8
    } else if i == 1 {
        ((w / 0x100) % 0x100) as u8
    } else if i == 2 {
        ((w / 0x10000) % 0x100) as u8
    } else {
        ((w / 0x1000000) % 0x100) as u8
    }
}

/// The word encoded by four little-endian bytes.
pub open spec fn word_from_le(b0: u8, b1: u8, b2: u8, b3: u8) -> u32 {
    (b0 + b1 * 0x100 + b2 * 0x10000 + b3 * 0x1000000) as u32
}

/// Decoding the four little-endian bytes of a word yields the word back.
pub proof fn lemma_word_le_round_trip(w: u32)
    ensures
        word_from_le(le_byte(w, 0), le_byte(w, 1), le_byte(w, 2), le_byte(w, 3)) == w,
{
    assert(((w % 0x100) as u8) as u32 + (((w / 0x100) % 0x100) as u8) as u32 * 0x100 + (((w
        / 0x10000) % 0x100) as u8) as u32 * 0x10000 + (((w / 0x1000000) % 0x100) as u8) as u32
        * 0x1000000 == w) by (bit_vector);
}

/// Appends the four little-endian bytes of `w` to `out`.
pub fn push_word_le(out: &mut Vec<u8>, w: u32)
    requires
        old(out)@.len() + 4 <= usize::MAX,
    ensures
        final(out)@.len() == old(out)@.len() + 4,
        forall|t: int| 0 <= t < old(out)@.len() ==> final(out)@[t] == old(out)@[t],
        forall|i: int| 0 <= i < 4 ==> final(out)@[old(out)@.len() + i] == le_byte(w, i),
{
    out.push((w % 0x100) as u8);
    out.push(((w / 0x100) % 0x100) as u8);
    out.push(((w / 0x10000) % 0x100) as u8);
    out.push(((w / 0x1000000) % 0x100) as u8);
}

/// Reads the word stored in little-endian order at `pos`.
pub fn read_word_le(bytes: &Vec<u8>, pos: usize) -> (w: u32)
    requires
        pos + 4 <= bytes@.len(),
    ensures
        w == word_from_le(bytes@[pos as int], bytes@[pos + 1], bytes@[pos + 2], bytes@[pos + 3]),
{
    let n = bytes.len();
    assert(pos + 4 <= n);
    let b0 = bytes[pos] as u32;
    let b1 = bytes[pos + 1] as u32;
    let b2 = bytes[pos + 2] as u32;
    let b3 = bytes[pos + 3] as u32;
    proof {
        let c0 = bytes@[pos as int] as int;
        let c1 = bytes@[pos + 1] as int;
        let c2 = bytes@[pos + 2] as int;
        let c3 = bytes@[pos + 3] as int;
        assert(c0 + c1 * 0x100 + c2 * 0x10000 + c3 * 0x1000000 <= u32::MAX);
    }
    b0 + b1 * 0x100 + b2 * 0x10000 + b3 * 0x1000000
}

} // verus!
