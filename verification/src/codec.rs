//! Fixed 16-byte allocation records inside the image.

use vstd::prelude::*;

use crate::bytes::be32_at;
use crate::bytes::lemma_be32_roundtrip;
use crate::bytes::put_be32;
use crate::bytes::read_u32_be;
use crate::bytes::write_u32_be;

verus! {

/// One allocation record: four 32-bit big-endian fields.  `end_phys == 0`
/// marks the file as stored uncompressed at `start_phys`; any other value
/// marks it compressed, with decompressed length `end_virt - start_virt`.
#[derive(Clone, Copy, Debug, PartialEq, Eq, Structural)]
pub struct Table {
    /// Start address of the file in the decompressed image.
    pub start_virt: u32,
    /// End address of the file in the decompressed image.
    pub end_virt: u32,
    /// Start address of the file in the compressed image.
    pub start_phys: u32,
    /// End address of the file in the compressed image, or 0 if uncompressed.
    pub end_phys: u32,
}

/// The record stored at index `idx` of the table starting at `tab_start`.
pub open spec fn entry_spec(s: Seq<u8>, tab_start: int, idx: int) -> Table {
    Table {
        start_virt: be32_at(s, tab_start + idx * 16),
        end_virt: be32_at(s, tab_start + idx * 16 + 4),
        start_phys: be32_at(s, tab_start + idx * 16 + 8),
        end_phys: be32_at(s, tab_start + idx * 16 + 12),
    }
}

/// `s` with record `t` serialized at index `idx` of the table starting at
/// `tab_start`.
pub open spec fn write_entry_spec(s: Seq<u8>, tab_start: int, idx: int, t: Table) -> Seq<u8> {
    put_be32(
        put_be32(
            put_be32(put_be32(s, tab_start + idx * 16, t.start_virt), tab_start + idx * 16 + 4, t.end_virt),
            tab_start + idx * 16 + 8,
            t.start_phys,
        ),
        tab_start + idx * 16 + 12,
        t.end_phys,
    )
}

/// Writing a record and reading it back from the same table offset and index
/// returns identical field values.
pub proof fn lemma_entry_roundtrip(s: Seq<u8>, tab_start: int, idx: int, t: Table)
    requires
        0 <= tab_start,
        0 <= idx,
        tab_start + idx * 16 + 16 <= s.len(),
    ensures
        entry_spec(write_entry_spec(s, tab_start, idx, t), tab_start, idx) == t,
{
    lemma_be32_roundtrip(t.start_virt);
    lemma_be32_roundtrip(t.end_virt);
    lemma_be32_roundtrip(t.start_phys);
    lemma_be32_roundtrip(t.end_phys);
}

/// Reads the 16-byte record at `tab_start + idx * 16` as four big-endian
/// fields.
pub fn get_table_entry(rom: &Vec<u8>, tab_start: usize, idx: usize) -> (t: Table)
    requires
        tab_start + idx * 16 + 16 <= rom.len(),
    ensures
        t == entry_spec(rom@, tab_start as int, idx as int),
{
    let base = tab_start + idx * 16;
    Table {
        start_virt: read_u32_be(rom, base),
        end_virt: read_u32_be(rom, base + 4),
        start_phys: read_u32_be(rom, base + 8),
        end_phys: read_u32_be(rom, base + 12),
    }
}

/// Serializes the four fields of `t` back into the 16-byte record at
/// `tab_start + idx * 16`.
pub fn set_table_entry(rom: &mut Vec<u8>, tab_start: usize, idx: usize, t: Table)
    requires
        tab_start + idx * 16 + 16 <= old(rom).len(),
    ensures
        final(rom)@ == write_entry_spec(old(rom)@, tab_start as int, idx as int, t),
        final(rom)@.len() == old(rom)@.len(),
{
    let base = tab_start + idx * 16;
    write_u32_be(rom, base, t.start_virt);
    write_u32_be(rom, base + 4, t.end_virt);
    write_u32_be(rom, base + 8, t.start_phys);
    write_u32_be(rom, base + 12, t.end_phys);
}

} // verus!
