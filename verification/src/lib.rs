//! Decompressor for a fixed-layout console ROM image.
//!
//! The input is a cartridge image whose payload files are individually
//! compressed with a bit-oriented LZ codec and located through an embedded
//! file-allocation table of fixed 16-byte records.  [`decompress`] produces a
//! same-format image in which every file has been materialized at its virtual
//! address and the table rewritten to declare all files uncompressed.

use vstd::prelude::*;

mod assemble;
mod bytes;
mod codec;
mod locate;
mod lz;
mod normalize;

pub use assemble::assemble_spec;
pub use assemble::decompress;
pub use assemble::overwrite;
pub use assemble::process_entries;
pub use assemble::process_entry;
pub use assemble::rewritten;
pub use assemble::zero_from;
pub use bytes::be32;
pub use bytes::be32_at;
pub use bytes::be_byte0;
pub use bytes::be_byte1;
pub use bytes::be_byte2;
pub use bytes::be_byte3;
pub use bytes::lemma_be32_roundtrip;
pub use bytes::put_be32;
pub use bytes::read_u32_be;
pub use bytes::write_u32_be;
pub use codec::Table;
pub use codec::entry_spec;
pub use codec::get_table_entry;
pub use codec::lemma_entry_roundtrip;
pub use codec::set_table_entry;
pub use codec::write_entry_spec;
pub use locate::SCAN_START;
pub use locate::find_spec;
pub use locate::find_table;
pub use locate::lemma_find_from_props;
pub use locate::signature_at;
pub use lz::all_literal_controls;
pub use lz::decompress_inner;
pub use lz::lemma_backref_zero_repeats;
pub use lz::lemma_literal_stream;
pub use lz::literal_pos;
pub use lz::lz_copy;
pub use lz::lz_spec;
pub use lz::lz_step;
pub use normalize::normalize;
pub use normalize::normalize_spec;
pub use normalize::swap_pairs;

verus! {

/// Exact byte length of a compressed input image.
pub const COMPSIZE: usize = 0x0200_0000;

/// Exact byte length of a fully decompressed output image.
pub const DCMPSIZE: usize = 0x0400_0000;

/// The ways a run can fail.  Every failure is terminal: no output image is
/// produced.
#[derive(Clone, Copy, Debug, PartialEq, Eq, Structural)]
pub enum Error {
    /// The input buffer is not exactly [`COMPSIZE`] bytes long.
    InputSize,
    /// The allocation-table signature was not found in the scanned region.
    TableNotFound,
    /// A 32-bit table field does not denote a range representable inside the
    /// input or output buffer.
    NumericRange,
    /// A compressed stream ended early or referenced data before the start of
    /// its output region.
    Decode,
}

} // verus!
