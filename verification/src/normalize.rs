//! Byte-order normalization of a word-swapped input image.

use vstd::prelude::*;

verus! {

/// `s` with every adjacent pair of bytes swapped.
pub open spec fn swap_pairs(s: Seq<u8>) -> Seq<u8> {
    Seq::new(s.len(), |i: int| if i % 2 == 0 { s[i + 1] } else { s[i - 1] })
}

/// What normalization leaves in the buffer: pairs are swapped exactly when
/// the first byte equals the marker 0x37 of the alternate dump convention.
pub open spec fn normalize_spec(s: Seq<u8>) -> Seq<u8> {
    if s.len() > 0 && s[0] == 0x37 {
        swap_pairs(s)
    } else {
        s
    }
}

/// Swaps every adjacent pair of bytes in place if and only if the first byte
/// equals the marker 0x37; any other buffer is left unchanged.
pub fn normalize(rom: &mut Vec<u8>)
    requires
        old(rom).len() % 2 == 0,
    ensures
        final(rom)@ == normalize_spec(old(rom)@),
{
    if rom.len() == 0 || rom[0] != 0x37 {
        return ;
    }
    let n = rom.len();
    let mut i: usize = 0;
    while i < n / 2
        invariant
            rom@.len() == n,
            n == old(rom)@.len(),
            n % 2 == 0,
            i <= n / 2,
            forall|j: int| 0 <= j < 2 * i ==> rom@[j] == swap_pairs(old(rom)@)[j],
            forall|j: int| 2 * i <= j < n ==> rom@[j] == old(rom)@[j],
        decreases n / 2 - i,
    {
        let a = rom[2 * i];
        let b = rom[2 * i + 1];
        rom[2 * i] = b;
        rom[2 * i + 1] = a;
        i = i + 1;
    }
    assert(rom@ =~= swap_pairs(old(rom)@));
}

} // verus!
