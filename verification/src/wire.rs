//! Spec-level description of the wire format, byte layer by byte layer:
//! hex digits, hex-encoded bytes, multi-byte numbers in either endianness,
//! and the inverse (decoding) functions, with the round-trip lemmas that
//! tie the two directions together.

use vstd::prelude::*;
use crate::types::BoolParseError;
use crate::types::Endian;

verus! {

/// ASCII code of the hex digit for a nibble; letters are uppercase.
pub open spec fn nibble_char(n: u8) -> u8
    recommends
        n < 16,
{
    if n > 9 {
        (n + 55) as u8
    } else {
        (n + 48) as u8
    }
}

/// The two hex characters that encode one raw byte, high nibble first.
pub open spec fn hex_pair(b: u8) -> Seq<u8> {
    seq![nibble_char((b / 16) as u8), nibble_char((b % 16) as u8)]
}

/// Hex encoding of a byte sequence: two characters per byte, in order.
pub open spec fn hex_bytes(bs: Seq<u8>) -> Seq<u8>
    decreases bs.len(),
{
    if bs.len() == 0 {
        Seq::empty()
    } else {
        hex_pair(bs.first()) + hex_bytes(bs.drop_first())
    }
}

/// Numeric value of one hex character when reading a big-endian stream:
/// uppercase letters only, and any other character wraps around as the
/// byte arithmetic falls (the stream is not validated).
pub open spec fn dec_digit_be(c: u8) -> u8 {
    if c > 64 {
        (c - 55) as u8
    } else if c >= 48 {
        (c - 48) as u8
    } else {
        (c + 208) as u8
    }
}

/// Numeric value of one hex character when reading a little-endian
/// stream: as on the big-endian path, but lowercase letters are read too.
pub open spec fn dec_digit_le(c: u8) -> u8 {
    if c > 96 {
        (c - 87) as u8
    } else if c > 64 {
        (c - 55) as u8
    } else if c >= 48 {
        (c - 48) as u8
    } else {
        (c + 208) as u8
    }
}

/// Numeric value of one hex character on the given endianness path.
pub open spec fn dec_digit(e: Endian, c: u8) -> u8 {
    match e {
        Endian::Big => dec_digit_be(c),
        Endian::Little => dec_digit_le(c),
    }
}

/// The raw byte read from two hex characters, with wrapping addition as
/// in the unvalidated character arithmetic.
pub open spec fn dec_byte(e: Endian, c0: u8, c1: u8) -> u8 {
    let m = dec_digit(e, c0);
    let l = dec_digit(e, c1);
    if l + (m << 4) > 255 {
        (l + (m << 4) - 256) as u8
    } else {
        (l + (m << 4)) as u8
    }
}

/// The byte sequence read back from a hex character sequence, one byte
/// per character pair; a trailing odd character is ignored.
pub open spec fn dec_hex_bytes(e: Endian, s: Seq<u8>) -> Seq<u8>
    decreases s.len(),
{
    if s.len() < 2 {
        Seq::empty()
    } else {
        seq![dec_byte(e, s[0], s[1])] + dec_hex_bytes(e, s.subrange(2, s.len() as int))
    }
}

/// 256 to the `n`th power: the number of values a field of `n` raw bytes
/// can hold.
pub open spec fn pow256(n: nat) -> nat
    decreases n,
{
    if n == 0 {
        1
    } else {
        256 * pow256((n - 1) as nat)
    }
}

/// The `n` raw bytes of `v` in big-endian order (most significant first).
pub open spec fn be_bytes(v: nat, n: nat) -> Seq<u8>
    decreases n,
{
    if n == 0 {
        Seq::empty()
    } else {
        be_bytes(v / 256, (n - 1) as nat).push((v % 256) as u8)
    }
}

/// The `n` raw bytes of `v` in little-endian order (least significant
/// first).
pub open spec fn le_bytes(v: nat, n: nat) -> Seq<u8>
    decreases n,
{
    if n == 0 {
        Seq::empty()
    } else {
        seq![(v % 256) as u8] + le_bytes(v / 256, (n - 1) as nat)
    }
}

/// The `n` raw bytes of `v` in the given byte order.
pub open spec fn num_bytes(e: Endian, v: nat, n: nat) -> Seq<u8> {
    match e {
        Endian::Big => be_bytes(v, n),
        Endian::Little => le_bytes(v, n),
    }
}

/// The value of a byte sequence read as a big-endian number.
pub open spec fn dec_be(bs: Seq<u8>) -> nat
    decreases bs.len(),
{
    if bs.len() == 0 {
        0
    } else {
        dec_be(bs.drop_last()) * 256 + bs.last() as nat
    }
}

/// The value of a byte sequence read as a little-endian number.
pub open spec fn dec_le(bs: Seq<u8>) -> nat
    decreases bs.len(),
{
    if bs.len() == 0 {
        0
    } else {
        bs.first() as nat + 256 * dec_le(bs.drop_first())
    }
}

/// The value of a byte sequence read as a number in the given byte order.
pub open spec fn dec_num_bytes(e: Endian, bs: Seq<u8>) -> nat {
    match e {
        Endian::Big => dec_be(bs),
        Endian::Little => dec_le(bs),
    }
}

/// A number field on the wire: `n` raw bytes of `v`, hex-encoded.
pub open spec fn num_hex(e: Endian, v: nat, n: nat) -> Seq<u8> {
    hex_bytes(num_bytes(e, v, n))
}

/// The value read back from the `2 * n` hex characters of a number field.
pub open spec fn dec_num(e: Endian, s: Seq<u8>) -> nat {
    dec_num_bytes(e, dec_hex_bytes(e, s))
}

/// The boolean read from one hex-encoded byte: 0 is false, 1 is true,
/// anything else is an error carrying the characters and the byte.
pub open spec fn spec_parse_bool(e: Endian, c0: u8, c1: u8) -> Result<bool, BoolParseError> {
    let b = dec_byte(e, c0, c1);
    if b == 0 {
        Ok(false)
    } else if b == 1 {
        Ok(true)
    } else {
        Err(BoolParseError(c0, c1, b))
    }
}

// ---------------------------------------------------------------------
// Two's-complement views of the signed field types.

/// The unsigned byte that carries an `i8` in two's complement.
pub open spec fn u8_of_i8(v: i8) -> u8 {
    if v >= 0 {
        v as u8
    } else {
        (v + 256) as u8
    }
}

/// The `i8` carried by an unsigned byte in two's complement.
pub open spec fn i8_of_u8(b: u8) -> i8 {
    if b < 128 {
        b as i8
    } else {
        (b - 256) as i8
    }
}

/// The unsigned value that carries an `i16` in two's complement.
pub open spec fn u16_of_i16(v: i16) -> u16 {
    if v >= 0 {
        v as u16
    } else {
        (v + 0x10000) as u16
    }
}

/// The `i16` carried by an unsigned value in two's complement.
pub open spec fn i16_of_u16(b: u16) -> i16 {
    if b < 0x8000 {
        b as i16
    } else {
        (b - 0x10000) as i16
    }
}

/// The unsigned value that carries an `i32` in two's complement.
pub open spec fn u32_of_i32(v: i32) -> u32 {
    if v >= 0 {
        v as u32
    } else {
        (v + 0x1_0000_0000) as u32
    }
}

/// The `i32` carried by an unsigned value in two's complement.
pub open spec fn i32_of_u32(b: u32) -> i32 {
    if b < 0x8000_0000 {
        b as i32
    } else {
        (b - 0x1_0000_0000) as i32
    }
}

/// The unsigned value that carries an `i64` in two's complement.
pub open spec fn u64_of_i64(v: i64) -> u64 {
    if v >= 0 {
        v as u64
    } else {
        (v + 0x1_0000_0000_0000_0000) as u64
    }
}

/// The `i64` carried by an unsigned value in two's complement.
pub open spec fn i64_of_u64(b: u64) -> i64 {
    if b < 0x8000_0000_0000_0000 {
        b as i64
    } else {
        (b - 0x1_0000_0000_0000_0000) as i64
    }
}

// ---------------------------------------------------------------------
// Round-trip lemmas, layer by layer.

/// Encoding a nibble and reading the character back is the identity.
pub proof fn lemma_digit_round_trip(e: Endian, n: u8)
    requires
        n < 16,
    ensures
        dec_digit(e, nibble_char(n)) == n,
{
}

/// Encoding a byte as two hex characters and reading them back is the
/// identity.
pub proof fn lemma_byte_round_trip(e: Endian, b: u8)
    ensures
        dec_byte(e, hex_pair(b)[0], hex_pair(b)[1]) == b,
{
    let m = (b / 16) as u8;
    let l = (b % 16) as u8;
    lemma_digit_round_trip(e, m);
    lemma_digit_round_trip(e, l);
    assert(m < 16 && l < 16 ==> (l + (m << 4)) == 16 * m + l) by (bit_vector);
    assert(16 * (b / 16) + b % 16 == b) by (nonlinear_arith);
}

/// Hex encoding doubles the length.
pub proof fn lemma_hex_bytes_len(bs: Seq<u8>)
    ensures
        hex_bytes(bs).len() == 2 * bs.len(),
    decreases bs.len(),
{
    if bs.len() > 0 {
        lemma_hex_bytes_len(bs.drop_first());
    }
}

/// Hex-encoding a byte sequence and reading it back is the identity.
pub proof fn lemma_hex_bytes_round_trip(e: Endian, bs: Seq<u8>)
    ensures
        dec_hex_bytes(e, hex_bytes(bs)) == bs,
    decreases bs.len(),
{
    if bs.len() == 0 {
        assert(dec_hex_bytes(e, hex_bytes(bs)) =~= bs);
    } else {
        let s = hex_bytes(bs);
        lemma_hex_bytes_len(bs);
        lemma_hex_bytes_len(bs.drop_first());
        lemma_byte_round_trip(e, bs.first());
        assert(s.subrange(2, s.len() as int) =~= hex_bytes(bs.drop_first()));
        lemma_hex_bytes_round_trip(e, bs.drop_first());
        assert(dec_hex_bytes(e, s) =~= bs);
    }
}

/// A number's byte form has the requested length.
pub proof fn lemma_num_bytes_len(e: Endian, v: nat, n: nat)
    ensures
        num_bytes(e, v, n).len() == n,
    decreases n,
{
    if n > 0 {
        lemma_num_bytes_len(e, v / 256, (n - 1) as nat);
    }
}

/// Writing a value below `pow256(n)` as `n` bytes and reading the bytes
/// back is the identity.
pub proof fn lemma_num_bytes_round_trip(e: Endian, v: nat, n: nat)
    requires
        v < pow256(n),
    ensures
        dec_num_bytes(e, num_bytes(e, v, n)) == v,
    decreases n,
{
    if n == 0 {
        assert(v == 0);
    } else {
        let q = v / 256;
        assert(q < pow256((n - 1) as nat)) by {
            assert(pow256(n) == 256 * pow256((n - 1) as nat));
            assert(v < 256 * pow256((n - 1) as nat) ==> v / 256 < pow256((n - 1) as nat))
                by (nonlinear_arith);
        }
        lemma_num_bytes_round_trip(e, q, (n - 1) as nat);
        lemma_num_bytes_len(e, q, (n - 1) as nat);
        assert(256 * (v / 256) + v % 256 == v) by (nonlinear_arith);
        match e {
            Endian::Big => {
                let bs = be_bytes(v, n);
                assert(bs.drop_last() =~= be_bytes(q, (n - 1) as nat));
                assert(bs.last() == (v % 256) as u8);
            },
            Endian::Little => {
                let bs = le_bytes(v, n);
                assert(bs.drop_first() =~= le_bytes(q, (n - 1) as nat));
                assert(bs.first() == (v % 256) as u8);
            },
        }
    }
}

/// True of the characters the encoder emits: decimal digits and the
/// uppercase letters A through F.
pub open spec fn is_hex_char(c: u8) -> bool {
    48 <= c <= 57 || 65 <= c <= 70
}

/// Every character of the run is a hex character.
pub open spec fn all_hex(s: Seq<u8>) -> bool {
    forall|i: int| 0 <= i < s.len() ==> is_hex_char(#[trigger] s[i])
}

/// A byte's two hex characters are hex characters.
pub proof fn lemma_hex_pair_all_hex(b: u8)
    ensures
        all_hex(hex_pair(b)),
{
}

/// Hex character runs stay hex character runs under concatenation.
pub proof fn lemma_all_hex_concat(a: Seq<u8>, b: Seq<u8>)
    requires
        all_hex(a),
        all_hex(b),
    ensures
        all_hex(a + b),
{
    assert forall|i: int| 0 <= i < (a + b).len() implies is_hex_char(#[trigger] (a + b)[i]) by {
        if i < a.len() {
            assert((a + b)[i] == a[i]);
        } else {
            assert((a + b)[i] == b[i - a.len()]);
        }
    }
}

/// The hex encoding of any byte run holds only hex characters.
pub proof fn lemma_hex_bytes_all_hex(bs: Seq<u8>)
    ensures
        all_hex(hex_bytes(bs)),
    decreases bs.len(),
{
    if bs.len() == 0 {
    } else {
        lemma_hex_pair_all_hex(bs.first());
        lemma_hex_bytes_all_hex(bs.drop_first());
        lemma_all_hex_concat(hex_pair(bs.first()), hex_bytes(bs.drop_first()));
    }
}

/// A single character pair decodes, as a number, to its byte value.
pub proof fn lemma_dec_num_single(e: Endian, s: Seq<u8>)
    requires
        s.len() == 2,
    ensures
        dec_num(e, s) == dec_byte(e, s[0], s[1]),
{
    let b = dec_byte(e, s[0], s[1]);
    assert(s.subrange(2, 2).len() == 0);
    assert(dec_hex_bytes(e, s.subrange(2, 2)) == Seq::<u8>::empty());
    assert(dec_hex_bytes(e, s) == seq![b] + Seq::<u8>::empty());
    assert(dec_hex_bytes(e, s) =~= seq![b]);
    assert(seq![b].drop_last() =~= Seq::<u8>::empty());
    assert(seq![b].drop_first() =~= Seq::<u8>::empty());
    assert(dec_be(Seq::<u8>::empty()) == 0);
    assert(dec_le(Seq::<u8>::empty()) == 0);
    assert(dec_be(seq![b].drop_last()) == 0);
    assert(dec_le(seq![b].drop_first()) == 0);
    assert(dec_be(seq![b]) == b);
    assert(dec_le(seq![b]) == b);
}

/// A one-byte number field is just the byte's hex pair.
pub proof fn lemma_num_hex_single(e: Endian, b: u8)
    ensures
        num_hex(e, b as nat, 1) == hex_pair(b),
{
    assert(be_bytes(b as nat, 1) == be_bytes((b as nat) / 256, 0).push(((b as nat) % 256) as u8));
    assert(be_bytes((b as nat) / 256, 0) == Seq::<u8>::empty());
    assert(be_bytes(b as nat, 1) =~= seq![b]);
    assert(le_bytes(b as nat, 1) == seq![((b as nat) % 256) as u8] + le_bytes((b as nat) / 256, 0));
    assert(le_bytes((b as nat) / 256, 0) == Seq::<u8>::empty());
    assert(le_bytes(b as nat, 1) =~= seq![b]);
    assert(seq![b].drop_first() =~= Seq::<u8>::empty());
    assert(hex_bytes(Seq::<u8>::empty()) == Seq::<u8>::empty());
    assert(hex_bytes(seq![b].drop_first()) == Seq::<u8>::empty());
    assert(hex_bytes(seq![b]) == hex_pair(b) + Seq::<u8>::empty());
    assert(hex_pair(b) + Seq::<u8>::empty() =~= hex_pair(b));
}

/// `pow256` grows with its argument.
pub proof fn lemma_pow256_increases(a: nat, b: nat)
    requires
        a <= b,
    ensures
        pow256(a) <= pow256(b),
    decreases b,
{
    if a < b {
        lemma_pow256_increases(a, (b - 1) as nat);
    }
}

/// The field widths the format uses, as plain numbers.
pub proof fn lemma_pow256_values()
    ensures
        pow256(0) == 1,
        pow256(1) == 0x100,
        pow256(2) == 0x10000,
        pow256(4) == 0x1_0000_0000,
        pow256(7) == 0x100_0000_0000_0000,
        pow256(8) == 0x1_0000_0000_0000_0000,
{
    assert(pow256(0) == 1);
    assert(pow256(1) == 0x100);
    assert(pow256(2) == 0x10000);
    assert(pow256(3) == 0x100_0000);
    assert(pow256(4) == 0x1_0000_0000);
    assert(pow256(5) == 0x100_0000_0000);
    assert(pow256(6) == 0x1_0000_0000_0000);
    assert(pow256(7) == 0x100_0000_0000_0000);
    assert(pow256(8) == 0x1_0000_0000_0000_0000);
}

/// Hex encoding distributes over appending one byte.
pub proof fn lemma_hex_bytes_push(bs: Seq<u8>, b: u8)
    ensures
        hex_bytes(bs.push(b)) == hex_bytes(bs) + hex_pair(b),
    decreases bs.len(),
{
    if bs.len() == 0 {
        assert(bs.push(b).drop_first() =~= Seq::<u8>::empty());
        assert(bs.push(b).first() == b);
        assert(hex_bytes(bs.push(b)) == hex_pair(bs.push(b).first()) + hex_bytes(
            bs.push(b).drop_first(),
        ));
        assert(hex_bytes(bs.push(b).drop_first()) == Seq::<u8>::empty());
        assert(hex_bytes(bs.push(b)) == hex_pair(b) + Seq::<u8>::empty());
        assert(hex_pair(b) + Seq::<u8>::empty() =~= Seq::<u8>::empty() + hex_pair(b));
    } else {
        assert(bs.push(b).first() == bs.first());
        assert(bs.push(b).drop_first() =~= bs.drop_first().push(b));
        lemma_hex_bytes_push(bs.drop_first(), b);
        assert(hex_bytes(bs.push(b)) == hex_pair(bs.first()) + (hex_bytes(bs.drop_first())
            + hex_pair(b)));
        assert(hex_pair(bs.first()) + (hex_bytes(bs.drop_first()) + hex_pair(b)) =~= (hex_pair(
            bs.first(),
        ) + hex_bytes(bs.drop_first())) + hex_pair(b));
    }
}

/// Reading hex characters pairwise peels the last pair off an even run.
pub proof fn lemma_dec_hex_bytes_snoc(e: Endian, s: Seq<u8>)
    requires
        s.len() >= 2,
        s.len() % 2 == 0,
    ensures
        dec_hex_bytes(e, s) == dec_hex_bytes(e, s.subrange(0, s.len() - 2)).push(
            dec_byte(e, s[s.len() - 2], s[s.len() - 1]),
        ),
    decreases s.len(),
{
    let n = s.len() as int;
    let last = dec_byte(e, s[n - 2], s[n - 1]);
    if s.len() == 2 {
        assert(s.subrange(2, n).len() == 0);
        assert(dec_hex_bytes(e, s.subrange(2, n)) == Seq::<u8>::empty());
        assert(dec_hex_bytes(e, s.subrange(0, 0)) == Seq::<u8>::empty());
        assert(dec_hex_bytes(e, s) == seq![last] + Seq::<u8>::empty());
        assert(seq![last] + Seq::<u8>::empty() =~= Seq::<u8>::empty().push(last));
    } else {
        let t = s.subrange(2, n);
        lemma_dec_hex_bytes_snoc(e, t);
        assert(t.subrange(0, t.len() - 2) =~= s.subrange(2, n - 2));
        assert(s.subrange(0, n - 2).subrange(2, n - 2) =~= s.subrange(2, n - 2));
        assert(dec_hex_bytes(e, s) =~= dec_hex_bytes(e, s.subrange(0, n - 2)).push(last));
    }
}

/// Appending a byte to a big-endian run multiplies the value by 256 and
/// adds the byte.
pub proof fn lemma_dec_be_push(bs: Seq<u8>, b: u8)
    ensures
        dec_be(bs.push(b)) == 256 * dec_be(bs) + b,
{
    assert(bs.push(b).drop_last() =~= bs);
}

/// A whole number field round-trips: writing `v` as `n` hex-encoded bytes
/// and decoding the characters gives `v` back.
pub proof fn lemma_num_round_trip(e: Endian, v: nat, n: nat)
    requires
        v < pow256(n),
    ensures
        num_hex(e, v, n).len() == 2 * n,
        dec_num(e, num_hex(e, v, n)) == v,
{
    lemma_num_bytes_len(e, v, n);
    lemma_hex_bytes_len(num_bytes(e, v, n));
    lemma_hex_bytes_round_trip(e, num_bytes(e, v, n));
    lemma_num_bytes_round_trip(e, v, n);
}

} // verus!
