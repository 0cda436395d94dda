//! Scan for the allocation table's start offset.

use vstd::prelude::*;

use crate::Error;

verus! {

/// Lowest byte offset at which the scan looks for the table: word index 1048,
/// the known end of the fixed boot-code region.
pub const SCAN_START: usize = 4192;

/// The 8-byte signature anchoring the table: a word of all-zero bytes
/// followed by the word 0x0000_1060, the end address of the boot-code region
/// for the supported title family.
pub open spec fn signature_at(s: Seq<u8>, off: int) -> bool {
    &&& 0 <= off
    &&& off + 8 <= s.len()
    &&& s[off] == 0u8
    &&& s[off + 1] == 0u8
    &&& s[off + 2] == 0u8
    &&& s[off + 3] == 0u8
    &&& s[off + 4] == 0u8
    &&& s[off + 5] == 0u8
    &&& s[off + 6] == 0x10u8
    &&& s[off + 7] == 0x60u8
}

/// First 4-aligned offset at or after `off` bearing the signature, if any.
pub open spec fn find_from(s: Seq<u8>, off: int) -> Option<int>
    decreases s.len() - off when off >= 0
{
    if off < 0 || off + 8 > s.len() {
        None
    } else if signature_at(s, off) {
        Some(off)
    } else {
        find_from(s, off + 4)
    }
}

/// Where the allocation table starts: the first matching offset of the scan.
pub open spec fn find_spec(s: Seq<u8>) -> Option<int> {
    find_from(s, SCAN_START as int)
}

/// What a scan outcome means, spelled out over the raw bytes: a found offset
/// is the least 4-aligned offset at or after `off` with the signature, and a
/// miss leaves no such offset at all.
pub proof fn lemma_find_from_props(s: Seq<u8>, off: int)
    requires
        0 <= off,
        off % 4 == 0,
    ensures
        match find_from(s, off) {
            Some(r) => {
                &&& off <= r
                &&& r % 4 == 0
                &&& r + 8 <= s.len()
                &&& signature_at(s, r)
                &&& forall|o: int| off <= o < r && o % 4 == 0 ==> !signature_at(s, o)
            },
            None => forall|o: int|
                off <= o && o % 4 == 0 && o + 8 <= s.len() ==> !signature_at(s, o),
        },
    decreases s.len() - off,
{
    if off + 8 > s.len() {
        assert forall|o: int| off <= o && o % 4 == 0 && o + 8 <= s.len() implies !signature_at(
            s,
            o,
        ) by {
            assert(o + 8 <= s.len() && off + 8 > s.len() && off <= o);
        }
    } else if signature_at(s, off) {
    } else {
        lemma_find_from_props(s, off + 4);
        match find_from(s, off + 4) {
            Some(r) => {
                assert forall|o: int| off <= o < r && o % 4 == 0 implies !signature_at(s, o) by {
                    if o == off {
                    } else {
                        assert(off + 4 <= o);
                    }
                }
            },
            None => {
                assert forall|o: int| off <= o && o % 4 == 0 && o + 8 <= s.len() implies
                    !signature_at(s, o) by {
                    if o == off {
                    } else {
                        assert(off + 4 <= o);
                    }
                }
            },
        }
    }
}

/// Scans the image at 4-byte-aligned offsets from `SCAN_START` upward for the
/// 8-byte signature; returns the byte offset of its first word, or
/// `TableNotFound` when no aligned window at or after `SCAN_START` matches.
pub fn find_table(in_rom: &Vec<u8>) -> (r: Result<usize, Error>)
    ensures
        match r {
            Ok(off) => {
                &&& find_spec(in_rom@) == Some(off as int)
                &&& SCAN_START <= off
                &&& off % 4 == 0
                &&& off + 8 <= in_rom@.len()
                &&& signature_at(in_rom@, off as int)
                &&& forall|o: int|
                    SCAN_START <= o < off && o % 4 == 0 ==> !signature_at(in_rom@, o)
            },
            Err(e) => {
                &&& e == Error::TableNotFound
                &&& find_spec(in_rom@) is None
                &&& forall|o: int|
                    SCAN_START <= o && o % 4 == 0 && o + 8 <= in_rom@.len() ==> !signature_at(
                        in_rom@,
                        o,
                    )
            },
        },
{
    proof {
        lemma_find_from_props(in_rom@, SCAN_START as int);
    }
    let n = in_rom.len();
    let mut off: usize = SCAN_START;
    while n >= 8 && off <= n - 8
        invariant
            n == in_rom@.len(),
            SCAN_START <= off,
            off % 4 == 0,
            find_from(in_rom@, off as int) == find_spec(in_rom@),
        decreases n - off,
    {
        if in_rom[off] == 0 && in_rom[off + 1] == 0 && in_rom[off + 2] == 0 && in_rom[off + 3]
            == 0 && in_rom[off + 4] == 0 && in_rom[off + 5] == 0 && in_rom[off + 6] == 0x10
            && in_rom[off + 7] == 0x60 {
            assert(signature_at(in_rom@, off as int));
            proof {
                lemma_find_from_props(in_rom@, SCAN_START as int);
            }
            return Ok(off);
        }
        assert(!signature_at(in_rom@, off as int));
        off = off + 4;
    }
    assert(find_from(in_rom@, off as int) is None);
    Err(Error::TableNotFound)
}

} // verus!
