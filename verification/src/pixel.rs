//! The scalar types a pixel can have, unified behind one trait: each one
//! names its byte width on the wire and converts to and from the unsigned
//! bit pattern (`u64`) that the grid codec works with.

use vstd::prelude::*;
use crate::wire::{
    i16_of_u16, i32_of_u32, i8_of_u8, lemma_pow256_values, pow256, u16_of_i16, u32_of_i32,
    u8_of_i8,
};

verus! {

/// A scalar that can sit in a pixel grid: it has a fixed byte width on
/// the wire and a faithful `u64` bit pattern.
pub trait PixelScalar: Sized + Copy {
    /// Byte width of one value on the wire.
    spec fn byte_width() -> nat;

    /// True of the bit patterns that carry a value of this type: any
    /// pattern of the right width, except that a boolean allows only 0
    /// and 1.
    spec fn valid_bits(b: u64) -> bool;

    /// The unsigned bit pattern that carries the value.
    spec fn as_bits(self) -> u64;

    /// The bit pattern of a value is valid and fits the byte width.
    proof fn lemma_bits_bound(self)
        ensures
            self.as_bits() < pow256(Self::byte_width()),
            Self::valid_bits(self.as_bits()),
    ;

    /// Computes the wire bit pattern.
    fn to_bits(self) -> (r: u64)
        ensures
            r == self.as_bits(),
    ;

    /// Recovers the value from a wire bit pattern.
    fn of_bits(b: u64) -> (r: Self)
        requires
            Self::valid_bits(b),
        ensures
            r.as_bits() == b,
    ;
}

impl PixelScalar for bool {
    open spec fn byte_width() -> nat {
        1
    }

    open spec fn valid_bits(b: u64) -> bool {
        b <= 1
    }

    open spec fn as_bits(self) -> u64 {
        if self {
            1
        } else {
            0
        }
    }

    proof fn lemma_bits_bound(self) {
        lemma_pow256_values();
    }

    fn to_bits(self) -> u64 {
        if self {
            1
        } else {
            0
        }
    }

    fn of_bits(b: u64) -> bool {
        b == 1
    }
}

impl PixelScalar for u8 {
    open spec fn byte_width() -> nat {
        1
    }

    open spec fn valid_bits(b: u64) -> bool {
        b < pow256(1)
    }

    open spec fn as_bits(self) -> u64 {
        self as u64
    }

    proof fn lemma_bits_bound(self) {
        lemma_pow256_values();
    }

    fn to_bits(self) -> u64 {
        self as u64
    }

    fn of_bits(b: u64) -> u8 {
        proof {
            lemma_pow256_values();
        }
        b as u8
    }
}

impl PixelScalar for i8 {
    open spec fn byte_width() -> nat {
        1
    }

    open spec fn valid_bits(b: u64) -> bool {
        b < pow256(1)
    }

    open spec fn as_bits(self) -> u64 {
        u8_of_i8(self) as u64
    }

    proof fn lemma_bits_bound(self) {
        lemma_pow256_values();
    }

    fn to_bits(self) -> u64 {
        crate::scalar::bits_of_i8(self) as u64
    }

    fn of_bits(b: u64) -> (r: i8) {
        proof {
            lemma_pow256_values();
        }
        let r = crate::scalar::i8_from_bits(b as u8);
        proof {
            assert(u8_of_i8(i8_of_u8(b as u8)) == b as u8);
        }
        r
    }
}

impl PixelScalar for u16 {
    open spec fn byte_width() -> nat {
        2
    }

    open spec fn valid_bits(b: u64) -> bool {
        b < pow256(2)
    }

    open spec fn as_bits(self) -> u64 {
        self as u64
    }

    proof fn lemma_bits_bound(self) {
        lemma_pow256_values();
    }

    fn to_bits(self) -> u64 {
        self as u64
    }

    fn of_bits(b: u64) -> u16 {
        proof {
            lemma_pow256_values();
        }
        b as u16
    }
}

impl PixelScalar for i16 {
    open spec fn byte_width() -> nat {
        2
    }

    open spec fn valid_bits(b: u64) -> bool {
        b < pow256(2)
    }

    open spec fn as_bits(self) -> u64 {
        u16_of_i16(self) as u64
    }

    proof fn lemma_bits_bound(self) {
        lemma_pow256_values();
    }

    fn to_bits(self) -> u64 {
        crate::scalar::bits_of_i16(self) as u64
    }

    fn of_bits(b: u64) -> (r: i16) {
        proof {
            lemma_pow256_values();
        }
        let r = crate::scalar::i16_from_bits(b as u16);
        proof {
            assert(u16_of_i16(i16_of_u16(b as u16)) == b as u16);
        }
        r
    }
}

impl PixelScalar for u32 {
    open spec fn byte_width() -> nat {
        4
    }

    open spec fn valid_bits(b: u64) -> bool {
        b < pow256(4)
    }

    open spec fn as_bits(self) -> u64 {
        self as u64
    }

    proof fn lemma_bits_bound(self) {
        lemma_pow256_values();
    }

    fn to_bits(self) -> u64 {
        self as u64
    }

    fn of_bits(b: u64) -> u32 {
        proof {
            lemma_pow256_values();
        }
        b as u32
    }
}

impl PixelScalar for i32 {
    open spec fn byte_width() -> nat {
        4
    }

    open spec fn valid_bits(b: u64) -> bool {
        b < pow256(4)
    }

    open spec fn as_bits(self) -> u64 {
        u32_of_i32(self) as u64
    }

    proof fn lemma_bits_bound(self) {
        lemma_pow256_values();
    }

    fn to_bits(self) -> u64 {
        crate::scalar::bits_of_i32(self) as u64
    }

    fn of_bits(b: u64) -> (r: i32) {
        proof {
            lemma_pow256_values();
        }
        let r = crate::scalar::i32_from_bits(b as u32);
        proof {
            assert(u32_of_i32(i32_of_u32(b as u32)) == b as u32);
        }
        r
    }
}

impl PixelScalar for u64 {
    open spec fn byte_width() -> nat {
        8
    }

    open spec fn valid_bits(b: u64) -> bool {
        b < pow256(8)
    }

    open spec fn as_bits(self) -> u64 {
        self
    }

    proof fn lemma_bits_bound(self) {
        lemma_pow256_values();
    }

    fn to_bits(self) -> u64 {
        self
    }

    fn of_bits(b: u64) -> u64 {
        b
    }
}

/// The `u64` bit patterns of a whole grid, row by row.
pub open spec fn grid_bits<T: PixelScalar>(rows: Seq<Vec<T>>) -> Seq<Seq<u64>> {
    rows.map_values(|row: Vec<T>| row@.map_values(|c: T| c.as_bits()))
}

/// The plain sequence view of a grid of bit patterns.
pub open spec fn grid_view(rows: Seq<Vec<u64>>) -> Seq<Seq<u64>> {
    rows.map_values(|row: Vec<u64>| row@)
}

} // verus!
