//! Shared executable scalar codec: writes and reads the hex-encoded bytes
//! of one number of a given byte width, in either byte order, plus the
//! two's-complement conversions between the signed field types and the
//! unsigned values that carry them on the wire.

use vstd::prelude::*;
use crate::types::Endian;
use crate::wire::{
    be_bytes, dec_byte, dec_hex_bytes, dec_le, dec_num, hex_bytes, hex_pair, i16_of_u16,
    i32_of_u32, i64_of_u64, i8_of_u8, le_bytes, lemma_dec_be_push, lemma_dec_hex_bytes_snoc,
    lemma_hex_bytes_push, lemma_pow256_increases, lemma_pow256_values, pow256, u16_of_i16,
    u32_of_i32, u8_of_i8,
};
use crate::big_endian::byte_to_hex_chars_be;
use crate::little_endian::byte_to_hex_chars_le;
use crate::big_endian::hex_chars_to_byte_be;
use crate::little_endian::hex_chars_to_byte_le;

verus! {

/// Appends the hex encoding of the `bw` big-endian bytes of `v`.
pub(crate) fn write_scalar_be(s: &mut Vec<u8>, v: u64, bw: usize)
    requires
        bw <= 8,
    ensures
        final(s)@ == old(s)@ + hex_bytes(be_bytes(v as nat, bw as nat)),
    decreases bw,
{
    if bw > 0 {
        let hi = v >> 8;
        proof {
            assert(v >> 8 == v / 256) by (bit_vector);
        }
        write_scalar_be(s, hi, bw - 1);
        let low = #[verifier::truncate] (v as u8);
        proof {
            assert((v as u8) as u64 == v % 256) by (bit_vector);
        }
        let pair = byte_to_hex_chars_be(low);
        s.push(pair[0]);
        s.push(pair[1]);
        proof {
            lemma_hex_bytes_push(be_bytes((v as nat) / 256, (bw - 1) as nat), low);
            assert(s@ =~= old(s)@ + hex_bytes(be_bytes(v as nat, bw as nat)));
        }
    } else {
        proof {
            assert(s@ =~= old(s)@ + hex_bytes(be_bytes(v as nat, 0)));
        }
    }
}

/// Appends the hex encoding of the `bw` little-endian bytes of `v`.
pub(crate) fn write_scalar_le(s: &mut Vec<u8>, v: u64, bw: usize)
    requires
        bw <= 8,
    ensures
        final(s)@ == old(s)@ + hex_bytes(le_bytes(v as nat, bw as nat)),
    decreases bw,
{
    if bw > 0 {
        let low = #[verifier::truncate] (v as u8);
        proof {
            assert((v as u8) as u64 == v % 256) by (bit_vector);
            assert(v >> 8 == v / 256) by (bit_vector);
        }
        let pair = byte_to_hex_chars_le(low);
        s.push(pair[0]);
        s.push(pair[1]);
        write_scalar_le(s, v >> 8, bw - 1);
        proof {
            let tail = le_bytes((v as nat) / 256, (bw - 1) as nat);
            assert(le_bytes(v as nat, bw as nat).drop_first() =~= tail);
            assert(s@ =~= old(s)@ + hex_bytes(le_bytes(v as nat, bw as nat)));
        }
    } else {
        proof {
            assert(s@ =~= old(s)@ + hex_bytes(le_bytes(v as nat, 0)));
        }
    }
}

/// Reads the number held by `2 * bw` hex characters in big-endian order.
pub(crate) fn parse_scalar_be(chars: &[u8], bw: usize) -> (r: u64)
    requires
        chars@.len() == 2 * bw,
        bw <= 8,
    ensures
        r == dec_num(Endian::Big, chars@),
        r < pow256(bw as nat),
    decreases bw,
{
    if bw == 0 {
        proof {
            assert(dec_hex_bytes(Endian::Big, chars@) =~= Seq::empty());
        }
        0
    } else {
        let n = chars.len();
        let prefix = vstd::slice::slice_subrange(chars, 0, n - 2);
        let hi = parse_scalar_be(prefix, bw - 1);
        let b = hex_chars_to_byte_be([chars[n - 2], chars[n - 1]]);
        let r = (hi << 8) | (b as u64);
        proof {
            lemma_pow256_values();
            lemma_pow256_increases((bw - 1) as nat, 7);
            assert((hi < 0x100_0000_0000_0000 && b < 256) ==> ((hi << 8) | (b as u64)) == 256 * hi
                + b) by (bit_vector);
            lemma_dec_hex_bytes_snoc(Endian::Big, chars@);
            assert(prefix@ == chars@.subrange(0, chars@.len() - 2));
            lemma_dec_be_push(
                dec_hex_bytes(Endian::Big, prefix@),
                dec_byte(Endian::Big, chars@[chars@.len() - 2], chars@[chars@.len() - 1]),
            );
        }
        r
    }
}

/// Reads the number held by `2 * bw` hex characters in little-endian
/// order.
pub(crate) fn parse_scalar_le(chars: &[u8], bw: usize) -> (r: u64)
    requires
        chars@.len() == 2 * bw,
        bw <= 8,
    ensures
        r == dec_num(Endian::Little, chars@),
        r < pow256(bw as nat),
    decreases bw,
{
    if bw == 0 {
        proof {
            assert(dec_hex_bytes(Endian::Little, chars@) =~= Seq::empty());
        }
        0
    } else {
        let n = chars.len();
        let b = hex_chars_to_byte_le([chars[0], chars[1]]);
        let rest = vstd::slice::slice_subrange(chars, 2, n);
        let hi = parse_scalar_le(rest, bw - 1);
        let r = (b as u64) | (hi << 8);
        proof {
            lemma_pow256_values();
            lemma_pow256_increases((bw - 1) as nat, 7);
            assert((hi < 0x100_0000_0000_0000 && b < 256) ==> ((b as u64) | (hi << 8)) == b + 256
                * hi) by (bit_vector);
            let bs = dec_hex_bytes(Endian::Little, chars@);
            assert(bs.drop_first() =~= dec_hex_bytes(Endian::Little, rest@));
            assert(dec_le(bs) == b + 256 * dec_le(bs.drop_first()));
        }
        r
    }
}

// ---------------------------------------------------------------------
// Two's-complement conversions.

/// The byte that carries an `i8` on the wire.
pub(crate) fn bits_of_i8(v: i8) -> (r: u8)
    ensures
        r == u8_of_i8(v),
{
    proof {
        assert((v as u8) == u8_of_i8(v)) by (bit_vector);
    }
    #[verifier::truncate] (v as u8)
}

/// The `i8` carried by a wire byte.
pub(crate) fn i8_from_bits(b: u8) -> (r: i8)
    ensures
        r == i8_of_u8(b),
{
    proof {
        assert((b as i8) == i8_of_u8(b)) by (bit_vector);
    }
    #[verifier::truncate] (b as i8)
}

/// The unsigned value that carries an `i16` on the wire.
pub(crate) fn bits_of_i16(v: i16) -> (r: u16)
    ensures
        r == u16_of_i16(v),
{
    proof {
        assert((v as u16) == u16_of_i16(v)) by (bit_vector);
    }
    #[verifier::truncate] (v as u16)
}

/// The `i16` carried by an unsigned wire value.
pub(crate) fn i16_from_bits(b: u16) -> (r: i16)
    ensures
        r == i16_of_u16(b),
{
    proof {
        assert((b as i16) == i16_of_u16(b)) by (bit_vector);
    }
    #[verifier::truncate] (b as i16)
}

/// The unsigned value that carries an `i32` on the wire.
pub(crate) fn bits_of_i32(v: i32) -> (r: u32)
    ensures
        r == u32_of_i32(v),
{
    proof {
        assert((v as u32) == u32_of_i32(v)) by (bit_vector);
    }
    #[verifier::truncate] (v as u32)
}

/// The `i32` carried by an unsigned wire value.
pub(crate) fn i32_from_bits(b: u32) -> (r: i32)
    ensures
        r == i32_of_u32(b),
{
    proof {
        assert((b as i32) == i32_of_u32(b)) by (bit_vector);
    }
    #[verifier::truncate] (b as i32)
}

/// The `i64` carried by an unsigned wire value.
pub(crate) fn i64_from_bits(b: u64) -> (r: i64)
    ensures
        r == i64_of_u64(b),
{
    proof {
        assert((b as i64) == i64_of_u64(b)) by (bit_vector);
    }
    #[verifier::truncate] (b as i64)
}

} // verus!
