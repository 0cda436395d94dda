//! The bit-oriented LZ decoder.
//!
//! A stream is an 8-bit control word consumed most-significant bit first,
//! refreshed from the stream when exhausted.  A 1 bit copies one literal
//! stream byte; a 0 bit reads a two- or three-byte back-reference and copies
//! bytes one at a time from earlier output, so a reference may copy bytes it
//! has itself just written.

use vstd::prelude::*;

use crate::Error;

verus! {

/// `out` extended by `n` bytes copied one at a time starting at `cp`; the
/// source position advances together with the output, so an overlapping
/// range rereads bytes appended by earlier steps of the same copy.
pub open spec fn lz_copy(out: Seq<u8>, cp: int, n: nat) -> Seq<u8>
    decreases n,
{
    if n == 0 {
        out
    } else {
        lz_copy(out.push(out[cp]), cp + 1, (n - 1) as nat)
    }
}

pub proof fn lemma_lz_copy_len(out: Seq<u8>, cp: int, n: nat)
    ensures
        lz_copy(out, cp, n).len() == out.len() + n,
    decreases n,
{
    if n > 0 {
        lemma_lz_copy_len(out.push(out[cp]), cp + 1, (n - 1) as nat);
    }
}

/// Copying one more byte appends the byte at `cp + n` of the copy so far.
pub proof fn lemma_lz_copy_snoc(out: Seq<u8>, cp: int, n: nat)
    requires
        0 <= cp,
    ensures
        lz_copy(out, cp, (n + 1) as nat) == lz_copy(out, cp, n).push(
            lz_copy(out, cp, n)[cp + n],
        ),
    decreases n,
{
    reveal_with_fuel(lz_copy, 3);
    if n > 0 {
        let out2 = out.push(out[cp]);
        lemma_lz_copy_snoc(out2, cp + 1, (n - 1) as nat);
        assert(lz_copy(out, cp, (n + 1) as nat) == lz_copy(out2, cp + 1, ((n - 1) as nat
            + 1) as nat));
        assert(lz_copy(out, cp, n) == lz_copy(out2, cp + 1, (n - 1) as nat));
    }
}

/// A back-reference with distance 0 replicates the immediately preceding
/// byte: copying `n` bytes from the last produced position appends `n`
/// repetitions of that byte.
pub proof fn lemma_backref_zero_repeats(out: Seq<u8>, n: nat)
    requires
        out.len() >= 1,
    ensures
        lz_copy(out, out.len() - 1, n) == out + Seq::new(n, |i: int| out[out.len() - 1]),
    decreases n,
{
    if n == 0 {
        assert(lz_copy(out, out.len() - 1, 0) =~= out + Seq::new(0, |i: int| out[out.len() - 1]));
    } else {
        let out2 = out.push(out[out.len() - 1]);
        lemma_backref_zero_repeats(out2, (n - 1) as nat);
        assert(out2 + Seq::new((n - 1) as nat, |i: int| out2[out2.len() - 1]) =~= out + Seq::new(
            n,
            |i: int| out[out.len() - 1],
        ));
    }
}

/// One step of the decoder, starting from stream position `src`, produced
/// output `out`, current control word `code` with `bits` bits left, until
/// `size` output bytes exist.  `None` is a malformed stream: it ran out of
/// bytes, or a back-reference reached before the start of the output region.
/// Copies that would pass `size` are cut off at `size`.
pub open spec fn lz_step(
    s: Seq<u8>,
    src: int,
    out: Seq<u8>,
    code: u8,
    bits: nat,
    size: nat,
) -> Option<Seq<u8>>
    decreases size - out.len(), (if bits == 0 { 1int } else { 0int }),
{
    if out.len() >= size {
        Some(out)
    } else if bits == 0 {
        if src < 0 || src + 1 > s.len() {
            None
        } else {
            lz_step(s, src + 1, out, s[src], 8, size)
        }
    } else if code & 0x80 != 0 {
        if src < 0 || src + 1 > s.len() {
            None
        } else {
            lz_step(s, src + 1, out.push(s[src]), code << 1, (bits - 1) as nat, size)
        }
    } else {
        if src < 0 || src + 2 > s.len() {
            None
        } else {
            let b1 = s[src];
            let b2 = s[src + 1];
            let dist = (b1 & 0xF) as int * 256 + b2 as int;
            let cp = out.len() - dist - 1;
            if cp < 0 {
                None
            } else if b1 >> 4 == 0 {
                if src + 3 > s.len() {
                    None
                } else {
                    let n = s[src + 2] as int + 18;
                    let take = if n <= size - out.len() {
                        n
                    } else {
                        size - out.len()
                    };
                    proof {
                        lemma_lz_copy_len(out, cp, take as nat);
                    }
                    lz_step(s, src + 3, lz_copy(out, cp, take as nat), code << 1, (bits - 1) as nat, size)
                }
            } else {
                let n = (b1 >> 4) as int + 2;
                let take = if n <= size - out.len() {
                    n
                } else {
                    size - out.len()
                };
                proof {
                    lemma_lz_copy_len(out, cp, take as nat);
                }
                lz_step(s, src + 2, lz_copy(out, cp, take as nat), code << 1, (bits - 1) as nat, size)
            }
        }
    }
}

/// The decoded output region for stream `s` and target length `size`, or
/// `None` for a malformed stream.
pub open spec fn lz_spec(s: Seq<u8>, size: nat) -> Option<Seq<u8>> {
    lz_step(s, 0, Seq::empty(), 0, 0, size)
}

/// The stream holds only literal-flag bits: every control word (one byte
/// before each group of eight literals, at stream position `9 * j`) is 0xFF.
pub open spec fn all_literal_controls(s: Seq<u8>, size: nat) -> bool {
    forall|j: int| 0 <= j && 8 * j < size ==> #[trigger] s[9 * j] == 0xFFu8
}

/// In an all-literal stream, output byte `i` sits at this stream position:
/// one control byte precedes each group of eight literals.
pub open spec fn literal_pos(i: int) -> int {
    1 + i + i / 8
}

/// A control stream consisting solely of literal-flag bits copies stream
/// bytes verbatim: the decoded region is exactly the stream with its control
/// words removed.
pub proof fn lemma_literal_stream(s: Seq<u8>, size: nat)
    requires
        size > 0 ==> s.len() > size + (size - 1) / 8,
        all_literal_controls(s, size),
    ensures
        lz_spec(s, size) == Some(Seq::new(size, |i: int| s[literal_pos(i)])),
{
    let full = Seq::new(size, |i: int| s[literal_pos(i)]);
    if size == 0 {
        assert(full =~= Seq::<u8>::empty());
    } else {
        assert(s[9 * 0int] == 0xFFu8);
        assert(Seq::new(0, |i: int| s[literal_pos(i)]) =~= Seq::<u8>::empty());
        assert(0xFFu8 << 0u8 == 0xFFu8) by (bit_vector);
        lemma_literal_stream_rec(s, size, 0);
    }
}

proof fn lemma_literal_stream_rec(s: Seq<u8>, size: nat, m: nat)
    requires
        0 < size,
        m <= size,
        s.len() > size + (size - 1) / 8,
        all_literal_controls(s, size),
    ensures
        lz_step(
            s,
            1 + m + m as int / 8,
            Seq::new(m, |i: int| s[literal_pos(i)]),
            0xFFu8 << ((m % 8) as u8),
            (8 - m % 8) as nat,
            size,
        ) == Some(Seq::new(size, |i: int| s[literal_pos(i)])),
    decreases size - m,
{
    reveal_with_fuel(lz_step, 3);
    let out = Seq::new(m, |i: int| s[literal_pos(i)]);
    let k = (m % 8) as u8;
    if m == size {
        assert(out.len() == size);
    } else {
        assert(m == 8 * (m as int / 8) + m % 8);
        assert(m as int / 8 <= (size - 1) / 8);
        assert((0xFFu8 << k) & 0x80 != 0) by (bit_vector)
            requires
                k < 8,
        ;
        let src = 1 + m + m as int / 8;
        assert(src == literal_pos(m as int));
        assert(src < s.len());
        let out2 = Seq::new((m + 1) as nat, |i: int| s[literal_pos(i)]);
        assert(out.push(s[src]) =~= out2);
        if m % 8 < 7 {
            assert((m + 1) as int / 8 == m as int / 8 && (m + 1) % 8 == m % 8 + 1);
            assert(((0xFFu8 << k) << 1u8) == 0xFFu8 << ((k + 1) as u8)) by (bit_vector)
                requires
                    k < 7,
            ;
            lemma_literal_stream_rec(s, size, m + 1);
        } else {
            // The eighth literal of its group: the control word is spent and
            // the next step refreshes it from the following stream byte.
            assert((m + 1) as int / 8 == m as int / 8 + 1 && (m + 1) % 8 == 0);
            if m + 1 == size {
                assert(out2.len() == size);
            } else {
                let q = (m + 1) as int / 8;
                assert(s[9 * q] == 0xFFu8);
                assert(1 + (m + 1) + q - 1 == 9 * q);
                assert(1 + (m + 1) + q - 1 < s.len());
                assert(0xFFu8 << 0u8 == 0xFFu8) by (bit_vector);
                lemma_literal_stream_rec(s, size, m + 1);
            }
        }
    }
}

/// Decodes the compressed stream beginning at `src_start` of `source` (a
/// 16-byte sub-header there is skipped unconditionally) into
/// `dest[dst_start .. dst_start + size]`.  Bytes of `dest` outside that
/// region are never touched.  A malformed stream yields `Decode` and the
/// region holds the bytes produced so far.
#[verifier::rlimit(60)]
#[verifier::loop_isolation(false)]
pub fn decompress_inner(
    source: &Vec<u8>,
    src_start: usize,
    dest: &mut Vec<u8>,
    dst_start: usize,
    size: usize,
) -> (r: Result<(), Error>)
    requires
        src_start + 16 <= source.len(),
        dst_start + size <= old(dest).len(),
    ensures
        final(dest)@.len() == old(dest)@.len(),
        forall|i: int|
            0 <= i < old(dest)@.len() && !(dst_start <= i < dst_start + size)
                ==> final(dest)@[i] == old(dest)@[i],
        match r {
            Ok(()) => lz_spec(source@.skip(src_start + 16), size as nat) == Some(
                final(dest)@.subrange(dst_start as int, dst_start + size),
            ),
            Err(e) => e == Error::Decode && lz_spec(source@.skip(src_start + 16), size as nat)
                is None,
        },
{
    let ghost s = source@.skip(src_start + 16);
    let base = src_start + 16;
    let slen = source.len() - base;
    let mut src_place: usize = 0;
    let mut dst_place: usize = 0;
    let mut code_byte: u8 = 0;
    let mut bit_count: u8 = 0;
    proof {
        assert(s.len() == slen);
        assert(dest@.subrange(dst_start as int, dst_start as int) =~= Seq::<u8>::empty());
    }
    while dst_place < size
        invariant
            base == src_start + 16,
            base <= source@.len(),
            slen == source@.len() - base,
            s == source@.skip(base as int),
            s.len() == slen,
            dest@.len() == old(dest)@.len(),
            dst_start + size <= dest@.len(),
            dst_place <= size,
            src_place <= slen,
            bit_count <= 8,
            forall|i: int|
                0 <= i < dest@.len() && !(dst_start <= i < dst_start + dst_place) ==> dest@[i]
                    == old(dest)@[i],
            lz_step(
                s,
                src_place as int,
                dest@.subrange(dst_start as int, dst_start + dst_place),
                code_byte,
                bit_count as nat,
                size as nat,
            ) == lz_spec(s, size as nat),
        decreases size - dst_place,
    {
        if bit_count == 0 {
            if src_place >= slen {
                return Err(Error::Decode);
            }
            code_byte = source[base + src_place];
            assert(code_byte == s[src_place as int]);
            src_place = src_place + 1;
            bit_count = 8;
        }
        let ghost out0 = dest@.subrange(dst_start as int, dst_start + dst_place);
        let ghost src0 = src_place as int;
        let ghost code0 = code_byte;
        let ghost bits0 = bit_count as nat;
        assert(lz_step(s, src0, out0, code0, bits0, size as nat) == lz_spec(s, size as nat));
        if code_byte & 0x80 != 0 {
            if src_place >= slen {
                return Err(Error::Decode);
            }
            let v = source[base + src_place];
            assert(v == s[src_place as int]);
            dest[dst_start + dst_place] = v;
            src_place = src_place + 1;
            dst_place = dst_place + 1;
            assert(dest@.subrange(dst_start as int, dst_start + dst_place) =~= out0.push(v));
        } else {
            if slen - src_place < 2 {
                return Err(Error::Decode);
            }
            let b1 = source[base + src_place];
            let b2 = source[base + src_place + 1];
            assert(b1 == s[src0] && b2 == s[src0 + 1]);
            src_place = src_place + 2;
            let dist: usize = ((b1 & 0x0F) as usize) * 256 + (b2 as usize);
            if dst_place < dist + 1 {
                return Err(Error::Decode);
            }
            let mut copy_place = dst_place - (dist + 1);
            let num_bytes: usize;
            if b1 >> 4 == 0 {
                if src_place >= slen {
                    return Err(Error::Decode);
                }
                let b3 = source[base + src_place];
                assert(b3 == s[src0 + 2]);
                num_bytes = (b3 as usize) + 18;
                src_place = src_place + 1;
            } else {
                num_bytes = ((b1 >> 4) as usize) + 2;
            }
            let ghost cp0 = copy_place as int;
            let ghost dst0 = dst_place as int;
            let ghost take: int = if num_bytes as int <= size - dst_place {
                num_bytes as int
            } else {
                size - dst_place
            };
            assert(num_bytes >= 1);
            let mut k: usize = 0;
            while k < num_bytes && dst_place < size
                invariant
                    0 <= k,
                    k as int <= take,
                    take == (if num_bytes as int <= size - dst0 {
                        num_bytes as int
                    } else {
                        size - dst0
                    }),
                    num_bytes >= 1,
                    0 <= cp0 < dst0,
                    dst0 + take <= size,
                    dst_place == dst0 + k,
                    copy_place == cp0 + k,
                    dst_place <= size,
                    dest@.len() == old(dest)@.len(),
                    dst_start + size <= dest@.len(),
                    forall|i: int|
                        0 <= i < dest@.len() && !(dst_start <= i < dst_start + dst_place)
                            ==> dest@[i] == old(dest)@[i],
                    dest@.subrange(dst_start as int, dst_start + dst_place) == lz_copy(
                        out0,
                        cp0,
                        k as nat,
                    ),
                decreases num_bytes - k,
            {
                proof {
                    lemma_lz_copy_len(out0, cp0, k as nat);
                    lemma_lz_copy_snoc(out0, cp0, k as nat);
                }
                let v = dest[dst_start + copy_place];
                assert(v == lz_copy(out0, cp0, k as nat)[cp0 + k]);
                dest[dst_start + dst_place] = v;
                dst_place = dst_place + 1;
                copy_place = copy_place + 1;
                k = k + 1;
                assert(dest@.subrange(dst_start as int, dst_start + dst_place) =~= lz_copy(
                    out0,
                    cp0,
                    k as nat,
                ));
            }
            assert(k as int == take);
            assert(dest@.subrange(dst_start as int, dst_start + dst_place) == lz_copy(
                out0,
                cp0,
                take as nat,
            ));
        }
        code_byte = code_byte << 1;
        bit_count = bit_count - 1;
    }
    Ok(())
}

} // verus!

