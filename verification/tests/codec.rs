// End-to-end tests of the raster codec: the documented literal scenario,
// round trips over every pixel type and both endiannesses, the boundary
// and error cases, and the little-endian lowercase-hex asymmetry.

use wkb_raster::{
    Endian, InMemoryRasterData, OfflineRasterData, ParseError, PixType, Raster, RasterBand,
    RasterDataSource,
};

fn base_raster(endian: Endian, width: u16, height: u16, bands: Vec<RasterBand>) -> Raster {
    Raster {
        endian,
        version: 0,
        scale_x: (1.0f64).to_bits(),
        scale_y: (1.0f64).to_bits(),
        ip_x: (0.0f64).to_bits(),
        ip_y: (0.0f64).to_bits(),
        skew_x: (0.0f64).to_bits(),
        skew_y: (0.0f64).to_bits(),
        srid: 4326,
        width,
        height,
        bands,
    }
}

fn mem_band(data: InMemoryRasterData) -> RasterBand {
    RasterBand { is_nodata_value: false, data: RasterDataSource::InMemory(data) }
}

#[test]
fn literal_scenario_big_endian_uint8() {
    let raster = base_raster(
        Endian::Big,
        2,
        2,
        vec![mem_band(InMemoryRasterData::UInt8 {
            data: vec![vec![0, 1], vec![1, 0]],
            nodata: None,
        })],
    );
    let expected = "00000000013FF00000000000003FF00000000000000000000000000000000000000\
000000000000000000000000000000000000000000010E600020002040000010100";
    let encoded = raster.clone().to_wkb_string();
    assert_eq!(encoded, expected);
    let decoded = Raster::from_wkb_string(encoded.as_bytes()).unwrap();
    assert_eq!(decoded, raster);
}

fn round_trip(raster: &Raster) {
    let encoded = raster.clone().to_wkb_string();
    let decoded = Raster::from_wkb_string(encoded.as_bytes()).unwrap();
    assert_eq!(&decoded, raster);
}

#[test]
fn round_trip_every_pixel_type_big_endian() {
    let bands = vec![
        mem_band(InMemoryRasterData::Bool1Bit {
            data: vec![vec![true, false], vec![false, true]],
            nodata: Some(false),
        }),
        mem_band(InMemoryRasterData::UInt2 {
            data: vec![vec![0, 3], vec![2, 1]],
            nodata: Some(1),
        }),
        mem_band(InMemoryRasterData::UInt4 {
            data: vec![vec![15, 4], vec![7, 0]],
            nodata: None,
        }),
        mem_band(InMemoryRasterData::Int8 {
            data: vec![vec![-128, 127], vec![-1, 0]],
            nodata: Some(-5),
        }),
        mem_band(InMemoryRasterData::UInt8 {
            data: vec![vec![255, 0], vec![128, 7]],
            nodata: Some(255),
        }),
        mem_band(InMemoryRasterData::Int16 {
            data: vec![vec![-32768, 32767], vec![-2, 3]],
            nodata: Some(-1),
        }),
        mem_band(InMemoryRasterData::UInt16 {
            data: vec![vec![65535, 0], vec![256, 1]],
            nodata: None,
        }),
        mem_band(InMemoryRasterData::Int32 {
            data: vec![vec![i32::MIN, i32::MAX], vec![-7, 9]],
            nodata: Some(-9999),
        }),
        mem_band(InMemoryRasterData::UInt32 {
            data: vec![vec![u32::MAX, 0], vec![1, 2]],
            nodata: Some(17),
        }),
        mem_band(InMemoryRasterData::Float32 {
            data: vec![
                vec![(1.5f32).to_bits(), (-0.25f32).to_bits()],
                vec![(0.0f32).to_bits(), f32::NAN.to_bits()],
            ],
            nodata: Some((-9999.0f32).to_bits()),
        }),
        mem_band(InMemoryRasterData::Float64 {
            data: vec![
                vec![(2.75f64).to_bits(), (-123.456f64).to_bits()],
                vec![(0.0f64).to_bits(), f64::INFINITY.to_bits()],
            ],
            nodata: Some((-9999.0f64).to_bits()),
        }),
    ];
    round_trip(&base_raster(Endian::Big, 2, 2, bands));
}

#[test]
fn round_trip_every_pixel_type_little_endian() {
    let bands = vec![
        mem_band(InMemoryRasterData::Bool1Bit {
            data: vec![vec![false]],
            nodata: Some(true),
        }),
        mem_band(InMemoryRasterData::UInt2 { data: vec![vec![2]], nodata: None }),
        mem_band(InMemoryRasterData::UInt4 { data: vec![vec![9]], nodata: Some(3) }),
        mem_band(InMemoryRasterData::Int8 { data: vec![vec![-100]], nodata: None }),
        mem_band(InMemoryRasterData::UInt8 { data: vec![vec![200]], nodata: Some(0) }),
        mem_band(InMemoryRasterData::Int16 { data: vec![vec![-12345]], nodata: Some(17) }),
        mem_band(InMemoryRasterData::UInt16 { data: vec![vec![54321]], nodata: None }),
        mem_band(InMemoryRasterData::Int32 { data: vec![vec![-1000000]], nodata: None }),
        mem_band(InMemoryRasterData::UInt32 { data: vec![vec![3000000000]], nodata: Some(1) }),
        mem_band(InMemoryRasterData::Float32 {
            data: vec![vec![(3.5f32).to_bits()]],
            nodata: None,
        }),
        mem_band(InMemoryRasterData::Float64 {
            data: vec![vec![(-0.5f64).to_bits()]],
            nodata: Some((0.125f64).to_bits()),
        }),
    ];
    round_trip(&base_raster(Endian::Little, 1, 1, bands));
}

#[test]
fn round_trip_offline_band() {
    let band = RasterBand {
        is_nodata_value: true,
        data: RasterDataSource::Offline(OfflineRasterData {
            band: 3,
            path: b"/data/rasters/tile_07.tif".to_vec(),
            pixtype: PixType::Int16(Some(-1)),
        }),
    };
    round_trip(&base_raster(Endian::Big, 16, 16, vec![band]));
    let band_le = RasterBand {
        is_nodata_value: false,
        data: RasterDataSource::Offline(OfflineRasterData {
            band: -1,
            path: b"relative/p\xc3\xa4th.tif".to_vec(),
            pixtype: PixType::Float64(None),
        }),
    };
    round_trip(&base_raster(Endian::Little, 4, 4, vec![band_le]));
}

#[test]
fn zero_width_and_zero_height_grids() {
    // width 0: each band payload is empty, and decoding must not error
    let r1 = base_raster(
        Endian::Big,
        0,
        3,
        vec![mem_band(InMemoryRasterData::UInt8 {
            data: vec![vec![], vec![], vec![]],
            nodata: None,
        })],
    );
    let s1 = r1.clone().to_wkb_bytes();
    // header is 61 raw bytes = 122 characters; band header adds 2 + 2
    assert_eq!(s1.len(), 122 + 4);
    assert_eq!(Raster::from_wkb_string(&s1).unwrap(), r1);

    // height 0: no rows at all
    let r2 = base_raster(
        Endian::Little,
        5,
        0,
        vec![mem_band(InMemoryRasterData::Int32 { data: vec![], nodata: Some(-1) })],
    );
    let s2 = r2.clone().to_wkb_bytes();
    assert_eq!(s2.len(), 122 + 2 + 8);
    assert_eq!(Raster::from_wkb_string(&s2).unwrap(), r2);
}

#[test]
fn invalid_pixel_type_nibbles() {
    // a valid one-band raster, its configuration byte then corrupted
    let raster = base_raster(
        Endian::Big,
        1,
        1,
        vec![mem_band(InMemoryRasterData::UInt8 { data: vec![vec![9]], nodata: None })],
    );
    let mut bytes = raster.to_wkb_bytes();
    // the configuration byte sits right after the 122 header characters
    assert_eq!(&bytes[122..124], b"04");
    bytes[122] = b'0';
    bytes[123] = b'9';
    assert_eq!(
        Raster::from_wkb_string(&bytes),
        Err(ParseError::InvalidPixelType(9))
    );
    bytes[122] = b'0';
    bytes[123] = b'C';
    assert_eq!(
        Raster::from_wkb_string(&bytes),
        Err(ParseError::InvalidPixelType(12))
    );
    bytes[122] = b'0';
    bytes[123] = b'F';
    assert_eq!(
        Raster::from_wkb_string(&bytes),
        Err(ParseError::InvalidPixelType(15))
    );
}

#[test]
fn truncated_inputs_fail_with_size_errors() {
    assert_eq!(
        Raster::from_wkb_string(b""),
        Err(ParseError::WrongInputSize { expected_len: 2, got: 0 })
    );
    assert_eq!(
        Raster::from_wkb_string(b"0"),
        Err(ParseError::WrongInputSize { expected_len: 2, got: 1 })
    );
    // marker alone: the version field needs 4 characters
    assert_eq!(
        Raster::from_wkb_string(b"00"),
        Err(ParseError::WrongInputSize { expected_len: 4, got: 0 })
    );
    // marker + version: the band count needs 4 more
    assert_eq!(
        Raster::from_wkb_string(b"000000"),
        Err(ParseError::WrongInputSize { expected_len: 4, got: 0 })
    );
    // any prefix shorter than the 122 header characters fails
    let raster = base_raster(Endian::Big, 1, 1, vec![]);
    let bytes = raster.to_wkb_bytes();
    for cut in [2usize, 5, 10, 60, 121] {
        match Raster::from_wkb_string(&bytes[..cut]) {
            Err(ParseError::WrongInputSize { .. }) => {},
            other => panic!("expected a size error at {cut}, got {other:?}"),
        }
    }
}

#[test]
fn bad_endianness_markers() {
    assert_eq!(
        Raster::from_wkb_string(b"02000000"),
        Err(ParseError::NoEndiannessGiven(b'0', b'2'))
    );
    assert_eq!(
        Raster::from_wkb_string(b"XY"),
        Err(ParseError::NoEndiannessGiven(b'X', b'Y'))
    );
    assert_eq!(
        Raster::from_wkb_string(b"10"),
        Err(ParseError::NoEndiannessGiven(b'1', b'0'))
    );
}

#[test]
fn little_endian_accepts_lowercase_hex() {
    let raster = base_raster(
        Endian::Little,
        1,
        1,
        vec![mem_band(InMemoryRasterData::UInt8 { data: vec![vec![0xAB]], nodata: None })],
    );
    let encoded = raster.clone().to_wkb_string();
    // the encoder writes uppercase; lowercasing the stream must decode
    // to the same raster on the little-endian path
    let lowered = encoded.to_lowercase();
    assert_ne!(encoded, lowered);
    let decoded = Raster::from_wkb_string(lowered.as_bytes()).unwrap();
    assert_eq!(decoded, raster);
}

#[test]
fn boolean_grid_rejects_other_bytes() {
    let raster = base_raster(
        Endian::Big,
        1,
        1,
        vec![mem_band(InMemoryRasterData::Bool1Bit { data: vec![vec![true]], nodata: None })],
    );
    let mut bytes = raster.to_wkb_bytes();
    let n = bytes.len();
    // the single pixel is the last character pair
    bytes[n - 2] = b'0';
    bytes[n - 1] = b'5';
    match Raster::from_wkb_string(&bytes) {
        Err(ParseError::UnableToParseBool(_)) => {},
        other => panic!("expected a boolean parse error, got {other:?}"),
    }
}

#[test]
fn boolean_nodata_rejects_other_bytes() {
    let raster = base_raster(
        Endian::Big,
        1,
        1,
        vec![mem_band(InMemoryRasterData::Bool1Bit {
            data: vec![vec![false]],
            nodata: Some(true),
        })],
    );
    let mut bytes = raster.to_wkb_bytes();
    // nodata field follows the configuration byte at offset 124
    bytes[124] = b'0';
    bytes[125] = b'7';
    match Raster::from_wkb_string(&bytes) {
        Err(ParseError::UnableToParseBool(_)) => {},
        other => panic!("expected a boolean parse error, got {other:?}"),
    }
}

#[test]
fn non_utf8_offline_path_fails() {
    let band = RasterBand {
        is_nodata_value: false,
        data: RasterDataSource::Offline(OfflineRasterData {
            band: 0,
            path: vec![0xFF, 0xFE],
            pixtype: PixType::UInt8(None),
        }),
    };
    let raster = base_raster(Endian::Big, 1, 1, vec![band]);
    let bytes = raster.to_wkb_bytes();
    assert_eq!(
        Raster::from_wkb_string(&bytes),
        Err(ParseError::PathContainsNonUTF8Chars)
    );
}

#[test]
fn unterminated_offline_path_fails_with_size_error() {
    let band = RasterBand {
        is_nodata_value: false,
        data: RasterDataSource::Offline(OfflineRasterData {
            band: 0,
            path: b"abc".to_vec(),
            pixtype: PixType::UInt8(None),
        }),
    };
    let raster = base_raster(Endian::Big, 1, 1, vec![band]);
    let bytes = raster.to_wkb_bytes();
    // drop the final NUL byte's two characters
    let cut = &bytes[..bytes.len() - 2];
    assert_eq!(
        Raster::from_wkb_string(cut),
        Err(ParseError::WrongInputSize { expected_len: 2, got: 0 })
    );
}

#[test]
fn trailing_input_is_ignored() {
    let raster = base_raster(
        Endian::Big,
        1,
        1,
        vec![mem_band(InMemoryRasterData::UInt8 { data: vec![vec![42]], nodata: None })],
    );
    let mut bytes = raster.clone().to_wkb_bytes();
    bytes.extend_from_slice(b"FFFF");
    assert_eq!(Raster::from_wkb_string(&bytes).unwrap(), raster);
}

#[test]
fn little_endian_header_layout_is_byte_reversed() {
    let raster = Raster {
        endian: Endian::Little,
        version: 0x0102,
        scale_x: 0,
        scale_y: 0,
        ip_x: 0,
        ip_y: 0,
        skew_x: 0,
        skew_y: 0,
        srid: 0x01020304,
        width: 0x0A0B,
        height: 1,
        bands: vec![],
    };
    let mut expected = String::new();
    expected.push_str("01"); // little-endian marker
    expected.push_str("0201"); // version 0x0102, low byte first
    expected.push_str("0000"); // no bands
    for _ in 0..6 {
        expected.push_str("0000000000000000"); // six zero doubles
    }
    expected.push_str("04030201"); // srid 0x01020304
    expected.push_str("0B0A"); // width 0x0A0B
    expected.push_str("0100"); // height 1
    assert_eq!(raster.clone().to_wkb_string(), expected);
    assert_eq!(Raster::from_wkb_string(expected.as_bytes()).unwrap(), raster);
}

#[test]
fn truncated_grid_reports_the_whole_grid_size() {
    let raster = base_raster(
        Endian::Big,
        2,
        2,
        vec![mem_band(InMemoryRasterData::UInt8 {
            data: vec![vec![0, 1], vec![1, 0]],
            nodata: None,
        })],
    );
    let bytes = raster.to_wkb_bytes();
    // cut into the pixel region: the 2x2 one-byte grid needs 8 characters
    let cut = &bytes[..bytes.len() - 2];
    assert_eq!(
        Raster::from_wkb_string(cut),
        Err(ParseError::WrongInputSize { expected_len: 8, got: 6 })
    );
}

#[test]
fn getters_report_band_properties() {
    let mem = InMemoryRasterData::Int16 { data: vec![vec![5]], nodata: Some(-1) };
    assert_eq!(mem.get_pixtype(), PixType::Int16(Some(-1)));
    let src = RasterDataSource::InMemory(mem);
    assert!(!src.is_offline());
    assert_eq!(src.get_pixtype(), PixType::Int16(Some(-1)));
    assert!(src.get_pixtype().has_nodata_value());
    let off = RasterDataSource::Offline(OfflineRasterData {
        band: 2,
        path: b"x".to_vec(),
        pixtype: PixType::Float32(None),
    });
    assert!(off.is_offline());
    assert_eq!(off.get_pixtype(), PixType::Float32(None));
    assert!(!off.get_pixtype().has_nodata_value());
}
