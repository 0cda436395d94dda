//! Big-endian 32-bit words inside a byte buffer.

use vstd::prelude::*;

verus! {

/// The big-endian 32-bit value formed from four bytes.
pub open spec fn be32(b0: u8, b1: u8, b2: u8, b3: u8) -> u32 {
    ((b0 as u32) << 24) | ((b1 as u32) << 16) | ((b2 as u32) << 8) | (b3 as u32)
}

/// The big-endian word whose four bytes start at `off`.
pub open spec fn be32_at(s: Seq<u8>, off: int) -> u32 {
    be32(s[off], s[off + 1], s[off + 2], s[off + 3])
}

/// Most significant byte of `v`.
pub open spec fn be_byte0(v: u32) -> u8 {
    (v >> 24) as u8
}

pub open spec fn be_byte1(v: u32) -> u8 {
    (v >> 16) as u8
}

pub open spec fn be_byte2(v: u32) -> u8 {
    (v >> 8) as u8
}

/// Least significant byte of `v`.
pub open spec fn be_byte3(v: u32) -> u8 {
    v as u8
}

/// `s` with the big-endian encoding of `v` written at `off .. off + 4`.
pub open spec fn put_be32(s: Seq<u8>, off: int, v: u32) -> Seq<u8> {
    s.update(off, be_byte0(v)).update(off + 1, be_byte1(v)).update(off + 2, be_byte2(v)).update(
        off + 3,
        be_byte3(v),
    )
}

/// Recombining the four big-endian bytes of a word gives the word back.
pub proof fn lemma_be32_roundtrip(v: u32)
    ensures
        be32(be_byte0(v), be_byte1(v), be_byte2(v), be_byte3(v)) == v,
{
    assert(((((v >> 24) as u8) as u32) << 24) | ((((v >> 16) as u8) as u32) << 16) | ((((v
        >> 8) as u8) as u32) << 8) | ((v as u8) as u32) == v) by (bit_vector);
}

/// Reads the big-endian word stored at `off`.
pub fn read_u32_be(rom: &Vec<u8>, off: usize) -> (v: u32)
    requires
        off + 4 <= rom.len(),
    ensures
        v == be32_at(rom@, off as int),
{
    let b0 = rom[off];
    let b1 = rom[off + 1];
    let b2 = rom[off + 2];
    let b3 = rom[off + 3];
    ((b0 as u32) << 24) | ((b1 as u32) << 16) | ((b2 as u32) << 8) | (b3 as u32)
}

/// Writes `v` at `off .. off + 4` in big-endian order.
pub fn write_u32_be(rom: &mut Vec<u8>, off: usize, v: u32)
    requires
        off + 4 <= old(rom).len(),
    ensures
        final(rom)@ == put_be32(old(rom)@, off as int, v),
        final(rom)@.len() == old(rom)@.len(),
{
    let b0: u8 = #[verifier::truncate] ((v >> 24) as u8);
    let b1: u8 = #[verifier::truncate] ((v >> 16) as u8);
    let b2: u8 = #[verifier::truncate] ((v >> 8) as u8);
    let b3: u8 = #[verifier::truncate] (v as u8);
    rom[off] = b0;
    rom[off + 1] = b1;
    rom[off + 2] = b2;
    rom[off + 3] = b3;
}

} // verus!
