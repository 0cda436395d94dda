//! Building the decompressed image: normalize, locate the table, materialize
//! every file, rewrite the table records.

use vstd::prelude::*;

use crate::COMPSIZE;
use crate::DCMPSIZE;
use crate::Error;
use crate::codec::Table;
use crate::codec::entry_spec;
use crate::codec::get_table_entry;
use crate::codec::set_table_entry;
use crate::codec::write_entry_spec;
use crate::locate::find_spec;
use crate::locate::find_table;
use crate::lz::decompress_inner;
use crate::lz::lz_spec;
use crate::normalize::normalize;
use crate::normalize::normalize_spec;

verus! {

/// `s` with `data` written over the bytes starting at `at`.
pub open spec fn overwrite(s: Seq<u8>, at: int, data: Seq<u8>) -> Seq<u8> {
    Seq::new(
        s.len(),
        |i: int| if at <= i < at + data.len() {
            data[i - at]
        } else {
            s[i]
        },
    )
}

/// `s` with every byte at or after `from` cleared to zero.
pub open spec fn zero_from(s: Seq<u8>, from: int) -> Seq<u8> {
    Seq::new(s.len(), |i: int| if i < from { s[i] } else { 0u8 })
}

/// The record an entry is rewritten to once its file has been materialized:
/// stored uncompressed at its own virtual address.
pub open spec fn rewritten(e: Table) -> Table {
    Table { start_virt: e.start_virt, end_virt: e.end_virt, start_phys: e.start_virt, end_phys: 0u32 }
}

/// What handling the entry at `idx` does to the output image `out`: skip a
/// placeholder record untouched, copy an uncompressed file through, decode a
/// compressed one, and rewrite the handled record in the output table.
pub open spec fn process_entry(inp: Seq<u8>, out: Seq<u8>, tab: int, idx: int) -> Result<
    Seq<u8>,
    Error,
> {
    if tab + idx * 16 + 16 > inp.len() {
        Err(Error::NumericRange)
    } else {
        let e = entry_spec(inp, tab, idx);
        if e.start_phys as int >= DCMPSIZE as int || e.end_phys as int >= DCMPSIZE as int {
            Ok(out)
        } else if e.end_virt < e.start_virt {
            Err(Error::NumericRange)
        } else if e.end_virt as int > DCMPSIZE as int {
            Err(Error::NumericRange)
        } else {
            let size = e.end_virt as int - e.start_virt as int;
            if e.end_phys == 0 {
                if e.start_phys as int + size > inp.len() {
                    Err(Error::NumericRange)
                } else {
                    Ok(
                        write_entry_spec(
                            overwrite(
                                out,
                                e.start_virt as int,
                                inp.subrange(e.start_phys as int, e.start_phys as int + size),
                            ),
                            tab,
                            idx,
                            rewritten(e),
                        ),
                    )
                }
            } else {
                if e.start_phys as int + 16 > inp.len() {
                    Err(Error::Decode)
                } else {
                    match lz_spec(inp.skip(e.start_phys as int + 16), size as nat) {
                        Some(data) => Ok(
                            write_entry_spec(
                                overwrite(out, e.start_virt as int, data),
                                tab,
                                idx,
                                rewritten(e),
                            ),
                        ),
                        None => Err(Error::Decode),
                    }
                }
            }
        }
    }
}

/// Handling the entries `idx .. count` in order, stopping at the first
/// failure.
pub open spec fn process_entries(
    inp: Seq<u8>,
    out: Seq<u8>,
    tab: int,
    idx: int,
    count: int,
) -> Result<Seq<u8>, Error>
    decreases count - idx,
{
    if idx >= count {
        Ok(out)
    } else {
        match process_entry(inp, out, tab, idx) {
            Ok(out2) => process_entries(inp, out2, tab, idx + 1, count),
            Err(e) => Err(e),
        }
    }
}

/// The whole transform on a raw input image: reject a wrong-sized buffer,
/// normalize byte order, locate the table, read the table's own span from
/// entry 2, clear everything past it in the zero-extended clone, and handle
/// entries 3 onward.
pub open spec fn assemble_spec(raw: Seq<u8>) -> Result<Seq<u8>, Error> {
    if raw.len() != COMPSIZE {
        Err(Error::InputSize)
    } else {
        let inp = normalize_spec(raw);
        match find_spec(inp) {
            None => Err(Error::TableNotFound),
            Some(tab) => {
                if tab + 48 > inp.len() {
                    Err(Error::NumericRange)
                } else {
                    let e2 = entry_spec(inp, tab, 2);
                    if e2.end_virt < e2.start_virt {
                        Err(Error::NumericRange)
                    } else if e2.end_virt as int > DCMPSIZE as int {
                        Err(Error::NumericRange)
                    } else {
                        let count = (e2.end_virt as int - e2.start_virt as int) / 16;
                        let out1 = zero_from(
                            inp + Seq::new((DCMPSIZE - COMPSIZE) as nat, |i: int| 0u8),
                            e2.end_virt as int,
                        );
                        process_entries(inp, out1, tab, 3, count)
                    }
                }
            },
        }
    }
}

/// A clone of `src` grown to the decompressed capacity with zero padding.
#[verifier::loop_isolation(false)]
fn clone_to_capacity(src: &Vec<u8>) -> (out: Vec<u8>)
    requires
        src.len() <= DCMPSIZE,
    ensures
        out@ == src@ + Seq::new((DCMPSIZE - src@.len()) as nat, |i: int| 0u8),
        out@.len() == DCMPSIZE,
{
    let mut out: Vec<u8> = Vec::new();
    let n = src.len();
    let mut i: usize = 0;
    while i < n
        invariant
            i <= n,
            out@ == src@.take(i as int),
        decreases n - i,
    {
        out.push(src[i]);
        assert(out@ =~= src@.take(i + 1));
        i = i + 1;
    }
    assert(out@ =~= src@);
    while i < DCMPSIZE
        invariant
            n <= i <= DCMPSIZE,
            out@.len() == i,
            out@ == src@ + Seq::new((i - n) as nat, |j: int| 0u8),
        decreases DCMPSIZE - i,
    {
        out.push(0);
        assert(out@ =~= src@ + Seq::new((i + 1 - n) as nat, |j: int| 0u8));
        i = i + 1;
    }
    out
}

/// Clears every byte at or after `from` to zero.
#[verifier::loop_isolation(false)]
fn fill_zero_from(dest: &mut Vec<u8>, from: usize)
    requires
        from <= old(dest).len(),
    ensures
        final(dest)@ == zero_from(old(dest)@, from as int),
{
    let n = dest.len();
    let mut j: usize = from;
    while j < n
        invariant
            from <= j <= n,
            dest@.len() == n,
            forall|i: int| 0 <= i < from ==> dest@[i] == old(dest)@[i],
            forall|i: int| from <= i < j ==> dest@[i] == 0u8,
            forall|i: int| j <= i < n ==> dest@[i] == old(dest)@[i],
        decreases n - j,
    {
        dest[j] = 0;
        j = j + 1;
    }
    assert(dest@ =~= zero_from(old(dest)@, from as int));
}

/// Copies `size` bytes of `src` starting at `src_off` over the bytes of
/// `dest` starting at `dst_off`.
#[verifier::loop_isolation(false)]
fn copy_region(src: &Vec<u8>, src_off: usize, dest: &mut Vec<u8>, dst_off: usize, size: usize)
    requires
        src_off + size <= src.len(),
        dst_off + size <= old(dest).len(),
    ensures
        final(dest)@ == overwrite(
            old(dest)@,
            dst_off as int,
            src@.subrange(src_off as int, src_off + size),
        ),
{
    let mut k: usize = 0;
    while k < size
        invariant
            k <= size,
            dest@.len() == old(dest)@.len(),
            forall|i: int|
                0 <= i < dest@.len() && !(dst_off <= i < dst_off + k) ==> dest@[i] == old(
                    dest,
                )@[i],
            forall|i: int| 0 <= i < k ==> #[trigger] dest@[dst_off + i] == src@[src_off + i],
        decreases size - k,
    {
        let v = src[src_off + k];
        dest[dst_off + k] = v;
        k = k + 1;
    }
    assert forall|i: int| 0 <= i < dest@.len() implies dest@[i] == overwrite(
        old(dest)@,
        dst_off as int,
        src@.subrange(src_off as int, src_off + size),
    )[i] by {
        if dst_off <= i < dst_off + size {
            assert(dest@[dst_off + (i - dst_off)] == src@[src_off + (i - dst_off)]);
        }
    }
    assert(dest@ =~= overwrite(
        old(dest)@,
        dst_off as int,
        src@.subrange(src_off as int, src_off + size),
    ));
}

/// Converts a compressed image into its fully decompressed form: normalizes
/// byte order in place, locates the allocation table, materializes every
/// file at its virtual address, and rewrites each handled table record as
/// uncompressed.  Returns the finished buffer of exactly [`DCMPSIZE`] bytes,
/// or the first error; no output is produced on failure.
#[verifier::rlimit(100)]
#[verifier::loop_isolation(false)]
pub fn decompress(in_rom: &mut Vec<u8>) -> (r: Result<Vec<u8>, Error>)
    ensures
        final(in_rom)@ == (if old(in_rom)@.len() == COMPSIZE {
            normalize_spec(old(in_rom)@)
        } else {
            old(in_rom)@
        }),
        match r {
            Ok(v) => assemble_spec(old(in_rom)@) == Ok::<Seq<u8>, Error>(v@) && v@.len()
                == DCMPSIZE,
            Err(e) => assemble_spec(old(in_rom)@) == Err::<Seq<u8>, Error>(e),
        },
{
    if in_rom.len() != COMPSIZE {
        return Err(Error::InputSize);
    }
    normalize(in_rom);
    let ghost inp = in_rom@;

    let tab_start = match find_table(in_rom) {
        Ok(t) => t,
        Err(e) => {
            return Err(e);
        },
    };
    if COMPSIZE - tab_start < 48 {
        return Err(Error::NumericRange);
    }
    let tab2 = get_table_entry(in_rom, tab_start, 2);
    if tab2.end_virt < tab2.start_virt {
        return Err(Error::NumericRange);
    }
    let end2 = tab2.end_virt as usize;
    if end2 > DCMPSIZE {
        return Err(Error::NumericRange);
    }
    let tab_size = (tab2.end_virt - tab2.start_virt) as usize;
    let tab_count = tab_size / 16;

    let mut out_rom = clone_to_capacity(in_rom);
    fill_zero_from(&mut out_rom, end2);
    assert(out_rom@ == zero_from(
        inp + Seq::new((DCMPSIZE - COMPSIZE) as nat, |i: int| 0u8),
        tab2.end_virt as int,
    ));
    assert(assemble_spec(old(in_rom)@) == process_entries(
        inp,
        out_rom@,
        tab_start as int,
        3,
        tab_count as int,
    ));

    let mut idx: usize = 3;
    while idx < tab_count
        invariant
            in_rom@ == inp,
            inp.len() == COMPSIZE,
            3 <= idx,
            tab_count <= 0x0FFF_FFFF,
            tab_start + 8 <= COMPSIZE,
            out_rom@.len() == DCMPSIZE,
            assemble_spec(old(in_rom)@) == process_entries(
                inp,
                out_rom@,
                tab_start as int,
                idx as int,
                tab_count as int,
            ),
        decreases tab_count - idx,
    {
        let ghost out_pre = out_rom@;
        let avail = COMPSIZE - tab_start;
        let off16 = idx * 16;
        if avail < 16 || off16 > avail - 16 {
            return Err(Error::NumericRange);
        }
        let temp = get_table_entry(in_rom, tab_start, idx);
        if (temp.start_phys as usize) >= DCMPSIZE || (temp.end_phys as usize) >= DCMPSIZE {
            assert(process_entry(inp, out_pre, tab_start as int, idx as int) == Ok::<
                Seq<u8>,
                Error,
            >(out_pre));
            idx = idx + 1;
        } else {
            if temp.end_virt < temp.start_virt {
                return Err(Error::NumericRange);
            }
            if (temp.end_virt as usize) > DCMPSIZE {
                return Err(Error::NumericRange);
            }
            let size = (temp.end_virt - temp.start_virt) as usize;
            let start_virt = temp.start_virt as usize;
            let sp = temp.start_phys as usize;
            let new_entry = Table {
                start_virt: temp.start_virt,
                end_virt: temp.end_virt,
                start_phys: temp.start_virt,
                end_phys: 0,
            };
            if temp.end_phys == 0 {
                if sp > COMPSIZE || size > COMPSIZE - sp {
                    return Err(Error::NumericRange);
                }
                copy_region(in_rom, sp, &mut out_rom, start_virt, size);
            } else {
                if sp > COMPSIZE || COMPSIZE - sp < 16 {
                    return Err(Error::Decode);
                }
                match decompress_inner(in_rom, sp, &mut out_rom, start_virt, size) {
                    Ok(()) => {
                        assert(out_rom@ =~= overwrite(
                            out_pre,
                            start_virt as int,
                            out_rom@.subrange(start_virt as int, start_virt + size),
                        ));
                    },
                    Err(e) => {
                        assert(process_entry(inp, out_pre, tab_start as int, idx as int)
                            == Err::<Seq<u8>, Error>(Error::Decode));
                        return Err(e);
                    },
                }
            }
            set_table_entry(&mut out_rom, tab_start, idx, new_entry);
            assert(process_entry(inp, out_pre, tab_start as int, idx as int) == Ok::<
                Seq<u8>,
                Error,
            >(out_rom@));
            idx = idx + 1;
        }
    }
    Ok(out_rom)
}

} // verus!
