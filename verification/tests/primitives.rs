// Tests of the scalar hex primitives: exact encodings, exact decodings,
// the uppercase/lowercase asymmetry between the two endianness paths,
// and the cursor readers.

use wkb_raster::big_endian::{
    byte_to_hex_chars_be, hex_chars_to_byte_be, parse_bool_be, parse_i16_be, parse_i32_be,
    parse_i64_be, parse_i8_be, parse_u16_be, parse_u32_be, parse_u64_be, parse_u8_be,
    write_bool_be, write_i16_be, write_i32_be, write_i8_be, write_u16_be, write_u32_be,
    write_u64_be, write_u8_be,
};
use wkb_raster::little_endian::{
    byte_to_hex_chars_le, hex_chars_to_byte_le, parse_bool_le, parse_i16_le, parse_i32_le,
    parse_i8_le, parse_u16_le, parse_u32_le, parse_u64_le, parse_u8_le, write_bool_le,
    write_i16_le, write_i32_le, write_i8_le, write_u16_le, write_u32_le, write_u64_le,
    write_u8_le,
};
use wkb_raster::{take_slice_1_byte, take_slice_2_bytes, take_slice_4_bytes, take_slice_8_bytes, ParseError};

#[test]
fn byte_to_hex_chars_is_uppercase() {
    assert_eq!(byte_to_hex_chars_be(230), [b'E', b'6']);
    assert_eq!(byte_to_hex_chars_le(230), [b'E', b'6']);
    assert_eq!(byte_to_hex_chars_be(0), [b'0', b'0']);
    assert_eq!(byte_to_hex_chars_le(255), [b'F', b'F']);
    assert_eq!(byte_to_hex_chars_be(0x4A), [b'4', b'A']);
}

#[test]
fn hex_chars_to_byte_round_trips() {
    for b in 0..=255u8 {
        assert_eq!(hex_chars_to_byte_be(byte_to_hex_chars_be(b)), b);
        assert_eq!(hex_chars_to_byte_le(byte_to_hex_chars_le(b)), b);
    }
}

#[test]
fn lowercase_letters_read_only_on_the_little_endian_path() {
    // the little-endian reader accepts lowercase
    assert_eq!(hex_chars_to_byte_le([b'e', b'6']), 0xE6);
    assert_eq!(hex_chars_to_byte_le([b'a', b'f']), 0xAF);
    assert_eq!(hex_chars_to_byte_le([b'6', b'e']), 0x6E);
    // the big-endian reader's arithmetic maps a lowercase low digit
    // elsewhere (a lowercase high digit happens to wrap back around)
    assert_ne!(hex_chars_to_byte_be([b'6', b'e']), 0x6E);
}

#[test]
fn write_and_parse_u16() {
    let mut s = Vec::new();
    write_u16_be(&mut s, 0x1234);
    assert_eq!(s, b"1234");
    let mut s = Vec::new();
    write_u16_le(&mut s, 0x1234);
    assert_eq!(s, b"3412");
    assert_eq!(parse_u16_be([b'1', b'2', b'3', b'4']), 0x1234);
    assert_eq!(parse_u16_le([b'3', b'4', b'1', b'2']), 0x1234);
}

#[test]
fn write_and_parse_signed() {
    let mut s = Vec::new();
    write_i8_be(&mut s, -1);
    assert_eq!(s, b"FF");
    let mut s = Vec::new();
    write_i8_le(&mut s, -128);
    assert_eq!(s, b"80");
    assert_eq!(parse_i8_be([b'F', b'F']), -1);
    assert_eq!(parse_i8_le([b'8', b'0']), -128);

    let mut s = Vec::new();
    write_i16_be(&mut s, -2);
    assert_eq!(s, b"FFFE");
    assert_eq!(parse_i16_be([b'F', b'F', b'F', b'E']), -2);
    let mut s = Vec::new();
    write_i16_le(&mut s, -2);
    assert_eq!(s, b"FEFF");
    assert_eq!(parse_i16_le([b'F', b'E', b'F', b'F']), -2);

    let mut s = Vec::new();
    write_i32_be(&mut s, -305419897);
    assert_eq!(s, b"EDCBA987");
    assert_eq!(
        parse_i32_be([b'E', b'D', b'C', b'B', b'A', b'9', b'8', b'7']),
        -305419897
    );
    let mut s = Vec::new();
    write_i32_le(&mut s, -305419897);
    assert_eq!(s, b"87A9CBED");
    assert_eq!(
        parse_i32_le([b'8', b'7', b'A', b'9', b'C', b'B', b'E', b'D']),
        -305419897
    );
}

#[test]
fn write_and_parse_u32_u64() {
    let mut s = Vec::new();
    write_u32_be(&mut s, 0xDEADBEEF);
    assert_eq!(s, b"DEADBEEF");
    assert_eq!(
        parse_u32_be([b'D', b'E', b'A', b'D', b'B', b'E', b'E', b'F']),
        0xDEADBEEF
    );
    let mut s = Vec::new();
    write_u32_le(&mut s, 0xDEADBEEF);
    assert_eq!(s, b"EFBEADDE");
    assert_eq!(
        parse_u32_le([b'E', b'F', b'B', b'E', b'A', b'D', b'D', b'E']),
        0xDEADBEEF
    );

    let bits = (1.0f64).to_bits();
    let mut s = Vec::new();
    write_u64_be(&mut s, bits);
    assert_eq!(s, b"3FF0000000000000");
    let arr: [u8; 16] = s.as_slice().try_into().unwrap();
    assert_eq!(parse_u64_be(arr), bits);
    let mut s = Vec::new();
    write_u64_le(&mut s, bits);
    assert_eq!(s, b"000000000000F03F");
    let arr: [u8; 16] = s.as_slice().try_into().unwrap();
    assert_eq!(parse_u64_le(arr), bits);
}

#[test]
fn parse_i64_reads_two_complement() {
    let mut s = Vec::new();
    write_u64_be(&mut s, u64::MAX);
    let arr: [u8; 16] = s.as_slice().try_into().unwrap();
    assert_eq!(parse_i64_be(arr), -1);
    assert_eq!(parse_u64_be(arr), u64::MAX);
}

#[test]
fn parse_u8_and_bool() {
    assert_eq!(parse_u8_be([b'7', b'F']), 0x7F);
    assert_eq!(parse_u8_le([b'f', b'f']), 0xFF);
    assert_eq!(parse_bool_be([b'0', b'0']), Ok(false));
    assert_eq!(parse_bool_be([b'0', b'1']), Ok(true));
    assert!(parse_bool_be([b'0', b'2']).is_err());
    assert_eq!(parse_bool_le([b'0', b'1']), Ok(true));
    assert!(parse_bool_le([b'4', b'4']).is_err());
}

#[test]
fn write_bool_writes_one_byte() {
    let mut s = Vec::new();
    write_bool_be(&mut s, true);
    write_bool_be(&mut s, false);
    assert_eq!(s, b"0100");
    let mut s = Vec::new();
    write_bool_le(&mut s, true);
    assert_eq!(s, b"01");
}

#[test]
fn writers_append_to_existing_buffers() {
    let mut s = b"AB".to_vec();
    write_u8_be(&mut s, 1);
    write_u8_le(&mut s, 2);
    assert_eq!(s, b"AB0102");
}

#[test]
fn take_slices_split_and_report_shortfalls() {
    let data = b"0123456789ABCDEF01".to_vec();
    let (a, rest) = take_slice_1_byte(&data).unwrap();
    assert_eq!(a, [b'0', b'1']);
    assert_eq!(rest.len(), 16);
    let (b, rest2) = take_slice_2_bytes(rest).unwrap();
    assert_eq!(b, [b'2', b'3', b'4', b'5']);
    let (c, rest3) = take_slice_4_bytes(rest2).unwrap();
    assert_eq!(c, [b'6', b'7', b'8', b'9', b'A', b'B', b'C', b'D']);
    assert_eq!(rest3, b"EF01");
    let (d, rest4) = take_slice_8_bytes(&data).unwrap();
    assert_eq!(&d[..], &data[..16]);
    assert_eq!(rest4, b"01");

    assert_eq!(
        take_slice_2_bytes(b"012"),
        Err(ParseError::WrongInputSize { expected_len: 4, got: 3 })
    );
    assert_eq!(
        take_slice_8_bytes(b"0123"),
        Err(ParseError::WrongInputSize { expected_len: 16, got: 4 })
    );
}
