//! Whole-pipeline behaviour of `decompress` on synthetic images.

use decompress::COMPSIZE;
use decompress::DCMPSIZE;
use decompress::Error;
use decompress::decompress;
use decompress::get_table_entry;

fn put_be32(buf: &mut [u8], off: usize, v: u32) {
    buf[off] = (v >> 24) as u8;
    buf[off + 1] = (v >> 16) as u8;
    buf[off + 2] = (v >> 8) as u8;
    buf[off + 3] = v as u8;
}

const TAB: usize = 4192;

/// An input image with the table signature at `TAB` and entry 2 declaring
/// `count` records.
fn base_image(count: u32) -> Vec<u8> {
    let mut rom = vec![0u8; COMPSIZE];
    // Signature: an all-zero word followed by 0x0000_1060.
    put_be32(&mut rom, TAB + 4, 0x0000_1060);
    // Entry 2: the table's own virtual span, 16 bytes per record.
    put_be32(&mut rom, TAB + 32, TAB as u32);
    put_be32(&mut rom, TAB + 36, TAB as u32 + count * 16);
    rom
}

fn set_entry(rom: &mut [u8], idx: usize, sv: u32, ev: u32, sp: u32, ep: u32) {
    put_be32(rom, TAB + idx * 16, sv);
    put_be32(rom, TAB + idx * 16 + 4, ev);
    put_be32(rom, TAB + idx * 16 + 8, sp);
    put_be32(rom, TAB + idx * 16 + 12, ep);
}

#[test]
fn wrong_input_size_is_rejected() {
    let mut rom = vec![0u8; 10];
    assert!(matches!(decompress(&mut rom), Err(Error::InputSize)));
    let mut rom = vec![0u8; COMPSIZE + 1];
    assert!(matches!(decompress(&mut rom), Err(Error::InputSize)));
}

#[test]
fn image_without_signature_reports_table_not_found() {
    let mut rom = vec![0u8; COMPSIZE];
    assert!(matches!(decompress(&mut rom), Err(Error::TableNotFound)));
}

#[test]
fn inverted_table_span_is_numeric_range_error() {
    let mut rom = base_image(5);
    put_be32(&mut rom, TAB + 32, 100);
    put_be32(&mut rom, TAB + 36, 50);
    assert!(matches!(decompress(&mut rom), Err(Error::NumericRange)));
}

#[test]
fn compressed_entry_with_truncated_stream_is_decode_error() {
    let mut rom = base_image(4);
    // A compressed record whose stream starts too close to the end of the
    // input to hold even the 16-byte sub-header.
    set_entry(&mut rom, 3, 0x8000, 0x8002, COMPSIZE as u32 - 8, 1);
    assert!(matches!(decompress(&mut rom), Err(Error::Decode)));
}

#[test]
fn sentinel_entry_is_skipped_untouched() {
    let mut rom = base_image(4);
    // Entry 3 is an absent-file placeholder; its virtual range lies below
    // the table end, where the initial clone of the input survives.
    set_entry(&mut rom, 3, 0x800, 0x804, 0xFFFF_FFFF, 0xFFFF_FFFF);
    rom[0x800] = 0xAA;
    rom[0x801] = 0xBB;
    rom[0x802] = 0xCC;
    rom[0x803] = 0xDD;
    let input = rom.clone();
    let out = decompress(&mut rom).unwrap();
    // Output bytes of the skipped file: identical to the clone, not
    // zero-filled, not decoded.
    assert_eq!(&out[0x800..0x804], &input[0x800..0x804]);
    // Output table record: identical to the input record.
    assert_eq!(&out[TAB + 48..TAB + 64], &input[TAB + 48..TAB + 64]);
    let rec = get_table_entry(&out, TAB, 3);
    assert_eq!(rec.start_phys, 0xFFFF_FFFF);
    assert_eq!(rec.end_phys, 0xFFFF_FFFF);
}

#[test]
fn end_to_end_matches_precomputed_image() {
    let mut rom = base_image(5);
    // Entry 3: compressed file, 6 bytes decompressed at 0x8000.  Stream:
    // control word 0xE0 (three literals, then a back-reference), literals
    // A B C, back-reference distance 0 length 3.
    set_entry(&mut rom, 3, 0x8000, 0x8006, 0x0010_0000, 0x0010_0020);
    let payload = [0xE0, 0x41, 0x42, 0x43, 0x10, 0x00];
    rom[0x0010_0010..0x0010_0016].copy_from_slice(&payload);
    // Entry 4: already-uncompressed file, 4 bytes at 0x9000.
    set_entry(&mut rom, 4, 0x9000, 0x9004, 0x0020_0000, 0);
    let file = [0xDE, 0xAD, 0xBE, 0xEF];
    rom[0x0020_0000..0x0020_0004].copy_from_slice(&file);

    let input = rom.clone();
    let out = decompress(&mut rom).unwrap();
    assert_eq!(out.len(), DCMPSIZE);

    // The precomputed expectation: clone, zero-extend, clear past the table
    // end (TAB + 80), materialize both files, rewrite both records.
    let mut expected = input.clone();
    expected.resize(DCMPSIZE, 0);
    for b in expected[TAB + 80..].iter_mut() {
        *b = 0;
    }
    expected[0x8000..0x8006].copy_from_slice(&[0x41, 0x42, 0x43, 0x43, 0x43, 0x43]);
    expected[0x9000..0x9004].copy_from_slice(&file);
    put_be32(&mut expected, TAB + 48 + 8, 0x8000);
    put_be32(&mut expected, TAB + 48 + 12, 0);
    put_be32(&mut expected, TAB + 64 + 8, 0x9000);
    put_be32(&mut expected, TAB + 64 + 12, 0);
    assert!(out == expected);

    let rec3 = get_table_entry(&out, TAB, 3);
    assert_eq!(rec3.start_phys, rec3.start_virt);
    assert_eq!(rec3.end_phys, 0);
    let rec4 = get_table_entry(&out, TAB, 4);
    assert_eq!(rec4.start_phys, rec4.start_virt);
    assert_eq!(rec4.end_phys, 0);
}

#[test]
fn byte_swapped_input_gives_same_output() {
    let mut plain = base_image(5);
    set_entry(&mut plain, 3, 0x8000, 0x8006, 0x0010_0000, 0x0010_0020);
    plain[0x0010_0010..0x0010_0016].copy_from_slice(&[0xE0, 0x41, 0x42, 0x43, 0x10, 0x00]);
    set_entry(&mut plain, 4, 0x9000, 0x9004, 0x0020_0000, 0);
    plain[0x0020_0000..0x0020_0004].copy_from_slice(&[0xDE, 0xAD, 0xBE, 0xEF]);
    // The word-swapped dump convention is detected by its first byte, so the
    // plain image must start with the marker once pairs are swapped.
    plain[1] = 0x37;
    let mut swapped = vec![0u8; COMPSIZE];
    for i in 0..COMPSIZE / 2 {
        swapped[2 * i] = plain[2 * i + 1];
        swapped[2 * i + 1] = plain[2 * i];
    }
    assert_eq!(swapped[0], 0x37);
    let out_plain = decompress(&mut plain.clone()).unwrap();
    let out_swapped = decompress(&mut swapped).unwrap();
    assert!(out_plain == out_swapped);
    // The swapped input has been normalized in place.
    assert!(swapped == plain);
}
