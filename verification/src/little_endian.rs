//! Little-endian primitives: each scalar type's hex writer and reader,
//! with least-significant byte first.  Hex letters are written uppercase;
//! on this path lowercase letters are accepted when reading as well.

use vstd::prelude::*;
use crate::types::{BoolParseError, Endian};
use crate::scalar::{
    bits_of_i16, bits_of_i32, bits_of_i8, i16_from_bits, i32_from_bits, i8_from_bits,
    parse_scalar_le, write_scalar_le,
};
use crate::wire::{
    dec_byte, dec_num, hex_pair, i16_of_u16, i32_of_u32, i8_of_u8, lemma_pow256_values, num_hex,
    spec_parse_bool, u16_of_i16, u32_of_i32, u8_of_i8,
};

verus! {

/// Converts a single byte into its two hex characters (uppercase).
pub fn byte_to_hex_chars_le(byte: u8) -> (r: [u8; 2])
    ensures
        r@ == hex_pair(byte),
{
    let msb = byte >> 4;
    let lsb = byte & 0x0F;
    proof {
        assert(byte >> 4 == byte / 16) by (bit_vector);
        assert(byte & 0x0F == byte % 16) by (bit_vector);
    }
    let hi = if msb > 9 {
        msb + 55
    } else {
        msb + 48
    };
    let lo = if lsb > 9 {
        lsb + 55
    } else {
        lsb + 48
    };
    let r = [hi, lo];
    proof {
        assert(r@ =~= hex_pair(byte));
    }
    r
}

/// Appends a boolean as one hex-encoded byte, 0 or 1.
pub fn write_bool_le(s: &mut Vec<u8>, input: bool)
    ensures
        final(s)@ == old(s)@ + hex_pair(if input { 1u8 } else { 0u8 }),
{
    write_u8_le(s, if input { 1 } else { 0 });
}

/// Appends an `i8` as one hex-encoded two's-complement byte.
pub fn write_i8_le(s: &mut Vec<u8>, input: i8)
    ensures
        final(s)@ == old(s)@ + hex_pair(u8_of_i8(input)),
{
    write_u8_le(s, bits_of_i8(input));
}

/// Appends a `u8` as one hex-encoded byte.
pub fn write_u8_le(s: &mut Vec<u8>, input: u8)
    ensures
        final(s)@ == old(s)@ + hex_pair(input),
{
    let pair = byte_to_hex_chars_le(input);
    s.push(pair[0]);
    s.push(pair[1]);
    proof {
        assert(s@ =~= old(s)@ + hex_pair(input));
    }
}

/// Appends an `i16` as two hex-encoded little-endian bytes.
pub fn write_i16_le(s: &mut Vec<u8>, input: i16)
    ensures
        final(s)@ == old(s)@ + num_hex(Endian::Little, u16_of_i16(input) as nat, 2),
{
    write_scalar_le(s, bits_of_i16(input) as u64, 2);
}

/// Appends a `u16` as two hex-encoded little-endian bytes.
pub fn write_u16_le(s: &mut Vec<u8>, input: u16)
    ensures
        final(s)@ == old(s)@ + num_hex(Endian::Little, input as nat, 2),
{
    write_scalar_le(s, input as u64, 2);
}

/// Appends an `i32` as four hex-encoded little-endian bytes.
pub fn write_i32_le(s: &mut Vec<u8>, input: i32)
    ensures
        final(s)@ == old(s)@ + num_hex(Endian::Little, u32_of_i32(input) as nat, 4),
{
    write_scalar_le(s, bits_of_i32(input) as u64, 4);
}

/// Appends a `u32` as four hex-encoded little-endian bytes.
pub fn write_u32_le(s: &mut Vec<u8>, input: u32)
    ensures
        final(s)@ == old(s)@ + num_hex(Endian::Little, input as nat, 4),
{
    write_scalar_le(s, input as u64, 4);
}

/// Appends a `u64` as eight hex-encoded little-endian bytes; this is how
/// the georeference doubles travel, as their IEEE-754 bit patterns.
pub fn write_u64_le(s: &mut Vec<u8>, input: u64)
    ensures
        final(s)@ == old(s)@ + num_hex(Endian::Little, input as nat, 8),
{
    write_scalar_le(s, input, 8);
}

/// Converts two hex characters into the byte they encode, accepting
/// lowercase letters too; other characters wrap around as the arithmetic
/// falls, without error.
pub fn hex_chars_to_byte_le(input: [u8; 2]) -> (r: u8)
    ensures
        r == dec_byte(Endian::Little, input@[0], input@[1]),
{
    let c0 = input[0];
    let c1 = input[1];
    let msb = if c0 > 96 {
        c0.wrapping_sub(87)
    } else if c0 > 64 {
        c0.wrapping_sub(55)
    } else {
        c0.wrapping_sub(48)
    };
    let lsb = if c1 > 96 {
        c1.wrapping_sub(87)
    } else if c1 > 64 {
        c1.wrapping_sub(55)
    } else {
        c1.wrapping_sub(48)
    };
    lsb.wrapping_add(msb << 4)
}

/// Reads a boolean byte: 0 is false, 1 is true, anything else an error.
pub fn parse_bool_le(input: [u8; 2]) -> (r: Result<bool, BoolParseError>)
    ensures
        r == spec_parse_bool(Endian::Little, input@[0], input@[1]),
{
    let byte = hex_chars_to_byte_le(input);
    match byte {
        0 => Ok(false),
        1 => Ok(true),
        _ => Err(BoolParseError(input[0], input[1], byte)),
    }
}

/// Reads an `i8` from one hex-encoded two's-complement byte.
pub fn parse_i8_le(input: [u8; 2]) -> (r: i8)
    ensures
        r == i8_of_u8(dec_byte(Endian::Little, input@[0], input@[1])),
{
    i8_from_bits(hex_chars_to_byte_le(input))
}

/// Reads a `u8` from one hex-encoded byte.
pub fn parse_u8_le(input: [u8; 2]) -> (r: u8)
    ensures
        r == dec_byte(Endian::Little, input@[0], input@[1]),
{
    hex_chars_to_byte_le(input)
}

/// Reads an `i16` from two hex-encoded little-endian bytes.
pub fn parse_i16_le(input: [u8; 4]) -> (r: i16)
    ensures
        r == i16_of_u16(dec_num(Endian::Little, input@) as u16),
{
    i16_from_bits(parse_u16_le(input))
}

/// Reads a `u16` from two hex-encoded little-endian bytes.
pub fn parse_u16_le(input: [u8; 4]) -> (r: u16)
    ensures
        r == dec_num(Endian::Little, input@),
{
    let v = parse_scalar_le(vstd::array::array_as_slice(&input), 2);
    proof {
        lemma_pow256_values();
    }
    v as u16
}

/// Reads an `i32` from four hex-encoded little-endian bytes.
pub fn parse_i32_le(input: [u8; 8]) -> (r: i32)
    ensures
        r == i32_of_u32(dec_num(Endian::Little, input@) as u32),
{
    i32_from_bits(parse_u32_le(input))
}

/// Reads a `u32` from four hex-encoded little-endian bytes.
pub fn parse_u32_le(input: [u8; 8]) -> (r: u32)
    ensures
        r == dec_num(Endian::Little, input@),
{
    let v = parse_scalar_le(vstd::array::array_as_slice(&input), 4);
    proof {
        lemma_pow256_values();
    }
    v as u32
}

/// Reads a `u64` from eight hex-encoded little-endian bytes; this is how
/// the georeference doubles travel, as their IEEE-754 bit patterns.
pub fn parse_u64_le(input: [u8; 16]) -> (r: u64)
    ensures
        r == dec_num(Endian::Little, input@),
{
    parse_scalar_le(vstd::array::array_as_slice(&input), 8)
}

} // verus!
