//! Component-level behaviour: codec round-trips, the normalizer, the table
//! scan, and the LZ decoder.

use decompress::Error;
use decompress::Table;
use decompress::decompress_inner;
use decompress::find_table;
use decompress::get_table_entry;
use decompress::normalize;
use decompress::set_table_entry;

fn stream(tail: &[u8]) -> Vec<u8> {
    let mut v = vec![0u8; 16];
    v.extend_from_slice(tail);
    v
}

#[test]
fn literal_stream_copies_verbatim() {
    let source = stream(&[0xFF, 0x41, 0x42, 0x43]);
    let mut dest = vec![0u8; 3];
    let r = decompress_inner(&source, 0, &mut dest, 0, 3);
    assert!(r.is_ok());
    assert_eq!(dest, vec![0x41, 0x42, 0x43]);
}

#[test]
fn backref_distance_zero_replicates_previous_byte() {
    // One literal 0x41, then a back-reference with distance 0 and length 3:
    // a byte-by-byte self-overlapping copy of the byte just written.
    let source = stream(&[0x80, 0x41, 0x10, 0x00]);
    let mut dest = vec![0u8; 4];
    let r = decompress_inner(&source, 0, &mut dest, 0, 4);
    assert!(r.is_ok());
    assert_eq!(dest, vec![0x41, 0x41, 0x41, 0x41]);
}

#[test]
fn backref_before_start_is_decode_error() {
    let source = stream(&[0x00, 0x10, 0x00]);
    let mut dest = vec![9u8; 2];
    let r = decompress_inner(&source, 0, &mut dest, 0, 2);
    assert!(matches!(r, Err(Error::Decode)));
}

#[test]
fn truncated_stream_is_decode_error() {
    let source = stream(&[0xFF, 0x41]);
    let mut dest = vec![0u8; 3];
    let r = decompress_inner(&source, 0, &mut dest, 0, 3);
    assert!(matches!(r, Err(Error::Decode)));
}

#[test]
fn decoder_touches_only_its_region() {
    let source = stream(&[0xFF, 0x41, 0x42]);
    let mut dest = vec![7u8; 6];
    let r = decompress_inner(&source, 0, &mut dest, 2, 2);
    assert!(r.is_ok());
    assert_eq!(dest, vec![7, 7, 0x41, 0x42, 7, 7]);
}

#[test]
fn normalizer_swaps_pairs_when_marker_present() {
    let mut v = vec![0x37, 0x80, 0x12, 0x34];
    normalize(&mut v);
    assert_eq!(v, vec![0x80, 0x37, 0x34, 0x12]);
}

#[test]
fn normalizer_leaves_unmarked_buffer_unchanged() {
    let mut v = vec![0x36, 0x80, 0x12, 0x34];
    normalize(&mut v);
    assert_eq!(v, vec![0x36, 0x80, 0x12, 0x34]);
}

#[test]
fn table_scan_miss_reports_not_found() {
    let rom = vec![0u8; 8192];
    assert!(matches!(find_table(&rom), Err(Error::TableNotFound)));
}

#[test]
fn table_scan_ignores_signature_before_start() {
    let mut rom = vec![0u8; 8192];
    // A signature at byte 4100 lies before the fixed scan start (4192).
    rom[4106] = 0x10;
    rom[4107] = 0x60;
    assert!(matches!(find_table(&rom), Err(Error::TableNotFound)));
}

#[test]
fn table_scan_returns_first_match() {
    let mut rom = vec![0u8; 8192];
    rom[4206] = 0x10;
    rom[4207] = 0x60;
    rom[4246] = 0x10;
    rom[4247] = 0x60;
    assert_eq!(find_table(&rom).unwrap(), 4200);
}

#[test]
fn entry_roundtrip_returns_identical_fields() {
    let mut rom = vec![0u8; 256];
    let t = Table {
        start_virt: 0x0102_0304,
        end_virt: 0xA0B0_C0D0,
        start_phys: 0x0000_FFFF,
        end_phys: 0x8000_0001,
    };
    set_table_entry(&mut rom, 16, 3, t);
    let back = get_table_entry(&rom, 16, 3);
    assert_eq!(back, t);
}

#[test]
fn literal_stream_with_second_control_word() {
    // Ten literals need two control words: one before each group of eight.
    let mut tail = vec![0xFFu8];
    tail.extend_from_slice(&[1, 2, 3, 4, 5, 6, 7, 8]);
    tail.push(0xFF);
    tail.extend_from_slice(&[9, 10]);
    let source = stream(&tail);
    let mut dest = vec![0u8; 10];
    let r = decompress_inner(&source, 0, &mut dest, 0, 10);
    assert!(r.is_ok());
    assert_eq!(dest, vec![1, 2, 3, 4, 5, 6, 7, 8, 9, 10]);
}

#[test]
fn long_backref_uses_extra_length_byte() {
    // A zero high nibble takes the copy length from a third stream byte,
    // plus 18.  Distance 0 again replicates the preceding byte.
    let source = stream(&[0x80, 0x41, 0x00, 0x00, 0x02]);
    let mut dest = vec![0u8; 21];
    let r = decompress_inner(&source, 0, &mut dest, 0, 21);
    assert!(r.is_ok());
    assert_eq!(dest, vec![0x41; 21]);
}
