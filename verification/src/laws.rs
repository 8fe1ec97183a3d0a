//! The format's laws: encoding then decoding is the identity on
//! well-formed rasters, empty grids decode without error, and the three
//! header-level failure cases strike exactly when the stream calls for
//! them.  The public proof functions at the end state the laws; the
//! helpers walk the stream layer by layer.

use vstd::prelude::*;
use crate::format::{
    band_hex, bands_hex, config_byte, dec_band, dec_band_payload, dec_band_pixtype, dec_bands,
    dec_bool_field, dec_cells, dec_field, dec_grid, dec_header, dec_header_geo, dec_header_tail,
    dec_path, dec_raster, dec_raster_body, dec_rows, grid_hex, header_fields_hex, nodata_hex,
    payload_hex, row_hex, wkb_v, HeaderV,
};
use crate::pixel::PixelScalar;
use crate::types::{BandV, Endian, ParseError, PixType, RasterV, SourceV};
use crate::wire::{
    dec_num, hex_bytes, hex_pair, i32_of_u32, i8_of_u8, lemma_byte_round_trip, lemma_hex_bytes_len,
    lemma_num_hex_single, lemma_num_round_trip, lemma_pow256_values, num_hex, pow256, u32_of_i32,
    u8_of_i8,
};

verus! {

/// A number field followed by anything decodes to the number and the
/// remainder.
proof fn lemma_field_round(e: Endian, v: nat, n: nat, rest: Seq<u8>)
    requires
        v < pow256(n),
    ensures
        dec_field(e, num_hex(e, v, n) + rest, n) == Ok::<(nat, Seq<u8>), ParseError>((v, rest)),
{
    lemma_num_round_trip(e, v, n);
    let s = num_hex(e, v, n) + rest;
    assert(s.subrange(0, 2 * n as int) =~= num_hex(e, v, n));
    assert(s.subrange(2 * n as int, s.len() as int) =~= rest);
}

/// The one-byte placeholder decodes to 0 and the remainder.
proof fn lemma_placeholder_round(e: Endian, rest: Seq<u8>)
    ensures
        dec_field(e, hex_pair(0) + rest, 1) == Ok::<(nat, Seq<u8>), ParseError>((0, rest)),
{
    lemma_pow256_values();
    lemma_num_hex_single(e, 0);
    lemma_field_round(e, 0, 1, rest);
}

/// A boolean byte followed by anything decodes to the boolean and the
/// remainder.
proof fn lemma_bool_field_round(e: Endian, b: bool, rest: Seq<u8>)
    ensures
        dec_bool_field(e, hex_pair(if b { 1u8 } else { 0u8 }) + rest) == Ok::<
            (bool, Seq<u8>),
            ParseError,
        >((b, rest)),
{
    let x: u8 = if b {
        1
    } else {
        0
    };
    let s = hex_pair(x) + rest;
    assert(s[0] == hex_pair(x)[0]);
    assert(s[1] == hex_pair(x)[1]);
    lemma_byte_round_trip(e, x);
    assert(s.subrange(2, s.len() as int) =~= rest);
}

/// A hex-encoded NUL-free path, its NUL byte, then anything, decodes to
/// the path and the remainder.
proof fn lemma_path_round(e: Endian, path: Seq<u8>, rest: Seq<u8>)
    requires
        forall|i: int| 0 <= i < path.len() ==> path[i] != 0,
    ensures
        dec_path(e, hex_bytes(path) + (hex_pair(0) + rest)) == Ok::<
            (Seq<u8>, Seq<u8>),
            ParseError,
        >((path, rest)),
    decreases path.len(),
{
    lemma_hex_bytes_len(path);
    if path.len() == 0 {
        let s = hex_bytes(path) + (hex_pair(0) + rest);
        assert(s =~= hex_pair(0) + rest);
        let s2 = hex_pair(0) + rest;
        assert(s2[0] == hex_pair(0)[0]);
        assert(s2[1] == hex_pair(0)[1]);
        lemma_byte_round_trip(e, 0);
        assert(s2.subrange(2, s2.len() as int) =~= rest);
        assert(dec_path(e, s) == Ok::<(Seq<u8>, Seq<u8>), ParseError>((Seq::empty(), rest)));
        assert(path =~= Seq::<u8>::empty());
    } else {
        let b0 = path.first();
        let s = hex_bytes(path) + (hex_pair(0) + rest);
        assert(s[0] == hex_pair(b0)[0]);
        assert(s[1] == hex_pair(b0)[1]);
        lemma_byte_round_trip(e, b0);
        lemma_hex_bytes_len(path.drop_first());
        assert(s.subrange(2, s.len() as int) =~= hex_bytes(path.drop_first()) + (hex_pair(0)
            + rest));
        lemma_path_round(e, path.drop_first(), rest);
        assert(seq![b0] + path.drop_first() =~= path);
    }
}

/// One encoded row has `2 * bw` characters per cell.
proof fn lemma_row_hex_len(e: Endian, row: Seq<u64>, bw: nat)
    ensures
        row_hex(e, row, bw).len() == 2 * bw * row.len(),
    decreases row.len(),
{
    if row.len() > 0 {
        crate::wire::lemma_num_bytes_len(e, row.first() as nat, bw);
        lemma_hex_bytes_len(crate::wire::num_bytes(e, row.first() as nat, bw));
        lemma_row_hex_len(e, row.drop_first(), bw);
        assert(2 * bw + 2 * bw * (row.len() - 1) == 2 * bw * row.len()) by (nonlinear_arith);
    }
}

/// A whole encoded grid of `w`-cell rows has `2 * bw * w` characters per
/// row.
proof fn lemma_grid_hex_len(e: Endian, grid: Seq<Seq<u64>>, w: nat, bw: nat)
    requires
        forall|i: int| 0 <= i < grid.len() ==> (#[trigger] grid[i]).len() == w,
    ensures
        grid_hex(e, grid, bw).len() == 2 * bw * w * grid.len(),
    decreases grid.len(),
{
    if grid.len() > 0 {
        lemma_row_hex_len(e, grid.first(), bw);
        lemma_grid_hex_len(e, grid.drop_first(), w, bw);
        assert(2 * bw * w + 2 * bw * w * (grid.len() - 1) == 2 * bw * w * grid.len())
            by (nonlinear_arith);
    }
}

/// An encoded row followed by anything decodes cell by cell back to the
/// row.
proof fn lemma_cells_round(e: Endian, row: Seq<u64>, bw: nat, chk: bool, ext: Seq<u8>)
    requires
        1 <= bw,
        forall|l: int| 0 <= l < row.len() ==> (#[trigger] row[l]) < pow256(bw),
        chk ==> forall|l: int| 0 <= l < row.len() ==> (#[trigger] row[l]) <= 1,
    ensures
        dec_cells(e, row_hex(e, row, bw) + ext, row.len(), bw, chk) == Ok::<Seq<u64>, ParseError>(
            row,
        ),
    decreases row.len(),
{
    if row.len() == 0 {
        assert(row =~= Seq::<u64>::empty());
    } else {
        let v0 = row.first();
        let s = row_hex(e, row, bw) + ext;
        let cell = num_hex(e, v0 as nat, bw);
        lemma_num_round_trip(e, v0 as nat, bw);
        assert(s.subrange(0, 2 * bw as int) =~= cell);
        assert(dec_num(e, s.subrange(0, 2 * bw as int)) == v0 as nat);
        assert(s.subrange(2 * bw as int, s.len() as int) =~= row_hex(e, row.drop_first(), bw)
            + ext);
        lemma_cells_round(e, row.drop_first(), bw, chk, ext);
        assert(seq![v0] + row.drop_first() =~= row);
    }
}

/// An encoded grid followed by anything decodes row by row back to the
/// grid.
proof fn lemma_rows_round(e: Endian, grid: Seq<Seq<u64>>, w: nat, bw: nat, chk: bool, ext: Seq<u8>)
    requires
        1 <= bw,
        forall|i: int| 0 <= i < grid.len() ==> (#[trigger] grid[i]).len() == w,
        forall|i: int, l: int|
            0 <= i < grid.len() && 0 <= l < grid[i].len() ==> (#[trigger] grid[i][l]) < pow256(bw),
        chk ==> forall|i: int, l: int|
            0 <= i < grid.len() && 0 <= l < grid[i].len() ==> (#[trigger] grid[i][l]) <= 1,
    ensures
        dec_rows(e, grid_hex(e, grid, bw) + ext, grid.len(), w, bw, chk) == Ok::<
            Seq<Seq<u64>>,
            ParseError,
        >(grid),
    decreases grid.len(),
{
    if grid.len() == 0 {
        assert(grid =~= Seq::<Seq<u64>>::empty());
    } else {
        let r0 = grid.first();
        let s = grid_hex(e, grid, bw) + ext;
        lemma_row_hex_len(e, r0, bw);
        assert(s =~= row_hex(e, r0, bw) + (grid_hex(e, grid.drop_first(), bw) + ext));
        lemma_cells_round(e, r0, bw, chk, grid_hex(e, grid.drop_first(), bw) + ext);
        assert(s.subrange(2 * bw * w as int, s.len() as int) =~= grid_hex(
            e,
            grid.drop_first(),
            bw,
        ) + ext);
        lemma_rows_round(e, grid.drop_first(), w, bw, chk, ext);
        assert(seq![r0] + grid.drop_first() =~= grid);
    }
}

/// A whole encoded grid region followed by anything decodes back to the
/// grid and the remainder.
proof fn lemma_grid_round(
    e: Endian,
    grid: Seq<Seq<u64>>,
    w: u16,
    h: u16,
    bw: nat,
    chk: bool,
    rest: Seq<u8>,
)
    requires
        1 <= bw,
        grid.len() == h,
        forall|i: int| 0 <= i < grid.len() ==> (#[trigger] grid[i]).len() == w,
        forall|i: int, l: int|
            0 <= i < grid.len() && 0 <= l < grid[i].len() ==> (#[trigger] grid[i][l]) < pow256(bw),
        chk ==> forall|i: int, l: int|
            0 <= i < grid.len() && 0 <= l < grid[i].len() ==> (#[trigger] grid[i][l]) <= 1,
    ensures
        dec_grid(e, grid_hex(e, grid, bw) + rest, w, h, bw, chk) == Ok::<
            (Seq<Seq<u64>>, Seq<u8>),
            ParseError,
        >((grid, rest)),
{
    let s = grid_hex(e, grid, bw) + rest;
    let total = 2 * bw * (w as nat) * (h as nat);
    lemma_grid_hex_len(e, grid, w as nat, bw);
    assert(2 * bw * (w as nat) * (grid.len() as nat) == total);
    lemma_rows_round(e, grid, w as nat, bw, chk, rest);
    assert(dec_rows(e, s, h as nat, w as nat, bw, chk) == Ok::<Seq<Seq<u64>>, ParseError>(grid));
    assert(s.subrange(total as int, s.len() as int) =~= rest);
}

/// A nodata sentinel's bit pattern fits the pixel type's byte width.
proof fn lemma_pixtype_nodata_bound(pt: PixType)
    ensures
        pt.nodata_bits() matches Some(v) ==> v < pow256(pt.byte_width()),
{
    match pt {
        PixType::Bool1Bit(Some(v)) => v.lemma_bits_bound(),
        PixType::UInt2(Some(v)) => v.lemma_bits_bound(),
        PixType::UInt4(Some(v)) => v.lemma_bits_bound(),
        PixType::Int8(Some(v)) => v.lemma_bits_bound(),
        PixType::UInt8(Some(v)) => v.lemma_bits_bound(),
        PixType::Int16(Some(v)) => v.lemma_bits_bound(),
        PixType::UInt16(Some(v)) => v.lemma_bits_bound(),
        PixType::Int32(Some(v)) => v.lemma_bits_bound(),
        PixType::UInt32(Some(v)) => v.lemma_bits_bound(),
        PixType::Float32(Some(v)) => v.lemma_bits_bound(),
        PixType::Float64(Some(v)) => v.lemma_bits_bound(),
        _ => {},
    }
}

/// Rebuilding a pixel type from its code and nodata bit pattern gives
/// the pixel type back.
proof fn lemma_pixtype_of_code_round(pt: PixType)
    ensures
        PixType::of_code(pt.code(), pt.nodata_bits()) == pt,
        PixType::valid_code(pt.code()),
        PixType::code_width(pt.code()) == pt.byte_width(),
{
    lemma_pow256_values();
}

/// The nodata stage reads back exactly the pixel type that was encoded.
proof fn lemma_nodata_stage(e: Endian, pt: PixType, tail: Seq<u8>)
    ensures
        dec_band_pixtype(
            e,
            nodata_hex(e, pt) + tail,
            pt.code(),
            pt.nodata_bits() is Some,
        ) == Ok::<(PixType, Seq<u8>), ParseError>((pt, tail)),
{
    lemma_pow256_values();
    lemma_pixtype_of_code_round(pt);
    lemma_pixtype_nodata_bound(pt);
    let code = pt.code();
    match pt.nodata_bits() {
        Some(v) => {
            if code == 0 {
                let bv = pt->Bool1Bit_0->Some_0;
                assert(v == (if bv {
                    1u8
                } else {
                    0u8
                }));
                lemma_num_hex_single(e, v as u8);
                assert(nodata_hex(e, pt) == hex_pair(
                    if bv {
                        1u8
                    } else {
                        0u8
                    },
                ));
                lemma_bool_field_round(e, bv, tail);
            } else {
                lemma_field_round(e, v as nat, pt.byte_width(), tail);
            }
        },
        None => {
            lemma_placeholder_round(e, tail);
        },
    }
}

/// The payload stage reads back exactly the data source that was
/// encoded.
proof fn lemma_payload_stage(e: Endian, d: SourceV, w: u16, h: u16, rest: Seq<u8>)
    requires
        d.wf(w, h),
    ensures
        dec_band_payload(e, payload_hex(e, d) + rest, d.pixtype(), d is Offline, w, h) == Ok::<
            (SourceV, Seq<u8>),
            ParseError,
        >((d, rest)),
{
    lemma_pow256_values();
    let pt = d.pixtype();
    match d {
        SourceV::Offline { band, path, pixtype } => {
            let tail3 = hex_bytes(path) + (hex_pair(0) + rest);
            assert(payload_hex(e, d) + rest =~= hex_pair(u8_of_i8(band)) + tail3);
            lemma_num_hex_single(e, u8_of_i8(band));
            lemma_field_round(e, u8_of_i8(band) as nat, 1, tail3);
            assert(i8_of_u8(u8_of_i8(band)) == band);
            lemma_path_round(e, path, rest);
        },
        SourceV::InMemory { pixtype, grid } => {
            assert(payload_hex(e, d) + rest =~= grid_hex(e, grid, pt.byte_width()) + rest);
            if pt is Bool1Bit {
                assert(forall|i: int, l: int|
                    0 <= i < grid.len() && 0 <= l < grid[i].len() ==> (#[trigger] grid[i][l])
                        <= 1);
            }
            assert(forall|i: int, l: int|
                0 <= i < grid.len() && 0 <= l < grid[i].len() ==> (#[trigger] grid[i][l]) < pow256(
                    pt.byte_width(),
                ));
            lemma_grid_round(e, grid, w, h, pt.byte_width(), pt is Bool1Bit, rest);
        },
    }
}

/// One encoded band followed by anything decodes back to the band and
/// the remainder.
#[verifier::rlimit(100)]
proof fn lemma_band_round(e: Endian, b: BandV, w: u16, h: u16, rest: Seq<u8>)
    requires
        b.data.wf(w, h),
    ensures
        dec_band(e, band_hex(e, b) + rest, w, h) == Ok::<(BandV, Seq<u8>), ParseError>((b, rest)),
{
    reveal(crate::format::dec_band);
    lemma_pow256_values();
    let pt = b.data.pixtype();
    let cfg = config_byte(b);
    let off: int = if b.data is Offline {
        1
    } else {
        0
    };
    let nod: int = if pt.nodata_bits() is Some {
        1
    } else {
        0
    };
    let dirty: int = if b.is_nodata_value {
        1
    } else {
        0
    };
    lemma_pixtype_of_code_round(pt);
    let code = pt.code();
    assert(cfg == off * 128 + nod * 64 + dirty * 32 + code);
    assert(cfg / 128 % 2 == off && cfg / 64 % 2 == nod && cfg / 32 % 2 == dirty && cfg % 16
        == code) by (nonlinear_arith)
        requires
            cfg == off * 128 + nod * 64 + dirty * 32 + code,
            0 <= off <= 1,
            0 <= nod <= 1,
            0 <= dirty <= 1,
            0 <= code <= 11,
    ;
    let s = band_hex(e, b) + rest;
    let tail1 = nodata_hex(e, pt) + (payload_hex(e, b.data) + rest);
    assert(s =~= hex_pair(cfg) + tail1);
    lemma_num_hex_single(e, cfg);
    lemma_field_round(e, cfg as nat, 1, tail1);
    lemma_nodata_stage(e, pt, payload_hex(e, b.data) + rest);
    lemma_payload_stage(e, b.data, w, h, rest);
}

/// An encoded band list followed by anything decodes back to the bands
/// and the remainder.
proof fn lemma_bands_round(e: Endian, bs: Seq<BandV>, w: u16, h: u16, rest: Seq<u8>)
    requires
        forall|i: int| 0 <= i < bs.len() ==> (#[trigger] bs[i]).data.wf(w, h),
    ensures
        dec_bands(e, bands_hex(e, bs) + rest, bs.len(), w, h) == Ok::<
            (Seq<BandV>, Seq<u8>),
            ParseError,
        >((bs, rest)),
    decreases bs.len(),
{
    if bs.len() == 0 {
        assert(bands_hex(e, bs) + rest =~= rest);
        assert(bs =~= Seq::<BandV>::empty());
    } else {
        let s = bands_hex(e, bs) + rest;
        assert(s =~= band_hex(e, bs.first()) + (bands_hex(e, bs.drop_first()) + rest));
        lemma_band_round(e, bs.first(), w, h, bands_hex(e, bs.drop_first()) + rest);
        lemma_bands_round(e, bs.drop_first(), w, h, rest);
        assert(seq![bs.first()] + bs.drop_first() =~= bs);
    }
}

/// The six encoded georeference doubles followed by anything decode
/// back to their bit patterns and the remainder.
proof fn lemma_geo_round(r: RasterV, rest: Seq<u8>)
    ensures
        dec_header_geo(
            r.endian,
            num_hex(r.endian, r.scale_x as nat, 8) + (num_hex(r.endian, r.scale_y as nat, 8) + (
            num_hex(r.endian, r.ip_x as nat, 8) + (num_hex(r.endian, r.ip_y as nat, 8) + (num_hex(
                r.endian,
                r.skew_x as nat,
                8,
            ) + (num_hex(r.endian, r.skew_y as nat, 8) + rest))))),
        ) == Ok::<((u64, u64, u64, u64, u64, u64), Seq<u8>), ParseError>(
            ((r.scale_x, r.scale_y, r.ip_x, r.ip_y, r.skew_x, r.skew_y), rest),
        ),
{
    lemma_pow256_values();
    let e = r.endian;
    let f8 = num_hex(e, r.skew_y as nat, 8) + rest;
    let f7 = num_hex(e, r.skew_x as nat, 8) + f8;
    let f6 = num_hex(e, r.ip_y as nat, 8) + f7;
    let f5 = num_hex(e, r.ip_x as nat, 8) + f6;
    let f4 = num_hex(e, r.scale_y as nat, 8) + f5;
    lemma_field_round(e, r.scale_x as nat, 8, f4);
    lemma_field_round(e, r.scale_y as nat, 8, f5);
    lemma_field_round(e, r.ip_x as nat, 8, f6);
    lemma_field_round(e, r.ip_y as nat, 8, f7);
    lemma_field_round(e, r.skew_x as nat, 8, f8);
    lemma_field_round(e, r.skew_y as nat, 8, rest);
}

/// The encoded header fields followed by anything decode back to the
/// fields and the remainder.
#[verifier::rlimit(100)]
proof fn lemma_header_round(r: RasterV, rest: Seq<u8>)
    requires
        r.bands.len() <= 0xFFFF,
    ensures
        dec_header(r.endian, header_fields_hex(r) + rest) == Ok::<(HeaderV, Seq<u8>), ParseError>(
            (
                HeaderV {
                    version: r.version,
                    nbands: r.bands.len() as u16,
                    scale_x: r.scale_x,
                    scale_y: r.scale_y,
                    ip_x: r.ip_x,
                    ip_y: r.ip_y,
                    skew_x: r.skew_x,
                    skew_y: r.skew_y,
                    srid: r.srid,
                    width: r.width,
                    height: r.height,
                },
                rest,
            ),
        ),
{
    reveal(crate::format::dec_header);
    lemma_pow256_values();
    let e = r.endian;
    let f11 = num_hex(e, r.height as nat, 2);
    let f10 = num_hex(e, r.width as nat, 2) + (f11 + rest);
    let f9 = num_hex(e, u32_of_i32(r.srid) as nat, 4) + f10;
    let f8 = num_hex(e, r.skew_y as nat, 8) + f9;
    let f7 = num_hex(e, r.skew_x as nat, 8) + f8;
    let f6 = num_hex(e, r.ip_y as nat, 8) + f7;
    let f5 = num_hex(e, r.ip_x as nat, 8) + f6;
    let f4 = num_hex(e, r.scale_y as nat, 8) + f5;
    let f3 = num_hex(e, r.scale_x as nat, 8) + f4;
    let f2 = num_hex(e, r.bands.len(), 2) + f3;
    let s = header_fields_hex(r) + rest;
    assert(s =~= num_hex(e, r.version as nat, 2) + f2);
    lemma_field_round(e, r.version as nat, 2, f2);
    lemma_field_round(e, r.bands.len(), 2, f3);
    lemma_geo_round(r, f9);
    lemma_header_tail_round(r, rest);
}

/// The encoded SRID, width and height followed by anything decode back
/// to those fields and the remainder.
proof fn lemma_header_tail_round(r: RasterV, rest: Seq<u8>)
    ensures
        dec_header_tail(
            r.endian,
            num_hex(r.endian, u32_of_i32(r.srid) as nat, 4) + (num_hex(r.endian, r.width as nat, 2)
                + (num_hex(r.endian, r.height as nat, 2) + rest)),
        ) == Ok::<((i32, u16, u16), Seq<u8>), ParseError>(((r.srid, r.width, r.height), rest)),
{
    lemma_pow256_values();
    let e = r.endian;
    let f11 = num_hex(e, r.height as nat, 2);
    lemma_field_round(e, u32_of_i32(r.srid) as nat, 4, num_hex(e, r.width as nat, 2) + (f11
        + rest));
    lemma_field_round(e, r.width as nat, 2, f11 + rest);
    lemma_field_round(e, r.height as nat, 2, rest);
    assert(i32_of_u32(u32_of_i32(r.srid)) == r.srid);
}

/// The round-trip law: encoding a well-formed raster and decoding the
/// stream gives exactly the raster back, for every pixel type and either
/// endianness.
pub proof fn lemma_wkb_round_trip(r: RasterV)
    requires
        r.wf(),
    ensures
        dec_raster(wkb_v(r)) == Ok::<RasterV, ParseError>(r),
{
    let e = r.endian;
    let s = wkb_v(r);
    let body = header_fields_hex(r) + bands_hex(e, r.bands);
    assert(s[0] == hex_pair(e.marker())[0]);
    assert(s[1] == hex_pair(e.marker())[1]);
    match e {
        Endian::Big => {
            assert(hex_pair(0)[0] == 48 && hex_pair(0)[1] == 48);
        },
        Endian::Little => {
            assert(hex_pair(1)[0] == 48 && hex_pair(1)[1] == 49);
        },
    }
    assert(s.subrange(2, s.len() as int) =~= body);
    lemma_header_round(r, bands_hex(e, r.bands));
    assert(bands_hex(e, r.bands) + Seq::<u8>::empty() =~= bands_hex(e, r.bands));
    lemma_bands_round(e, r.bands, r.width, r.height, Seq::empty());
    assert((r.bands.len() as u16) as nat == r.bands.len());
    let rv = dec_raster_body(e, body);
    assert(rv == Ok::<RasterV, ParseError>(r));
}

/// The boundary law: a grid region with zero width or zero height has a
/// zero-length encoding, and decoding such a band's grid consumes
/// nothing and cannot fail.
pub proof fn lemma_empty_grid(e: Endian, grid: Seq<Seq<u64>>, s: Seq<u8>, w: u16, h: u16, bw: nat, chk: bool)
    requires
        w == 0 || h == 0,
        grid.len() == h,
        forall|i: int| 0 <= i < grid.len() ==> (#[trigger] grid[i]).len() == w,
    ensures
        grid_hex(e, grid, bw).len() == 0,
        dec_grid(e, s, w, h, bw, chk) matches Ok(p) && p.1 == s,
{
    lemma_grid_hex_len(e, grid, w as nat, bw);
    assert(2 * bw * (w as nat) * (grid.len() as nat) == 0) by (nonlinear_arith)
        requires
            w == 0 || grid.len() == 0,
    ;
    assert(2 * bw * (w as nat) * (h as nat) == 0) by (nonlinear_arith)
        requires
            w == 0 || h == 0,
    ;
    lemma_dec_rows_total_when_empty(e, s, h as nat, w as nat, bw, chk);
    assert(s.subrange(0, s.len() as int) =~= s);
}

/// Rows of zero width always decode, whatever the input holds.
proof fn lemma_dec_rows_total_when_empty(e: Endian, s: Seq<u8>, k: nat, w: nat, bw: nat, chk: bool)
    requires
        w == 0 || k == 0,
    ensures
        dec_rows(e, s, k, w, bw, chk) is Ok,
    decreases k,
{
    if k > 0 {
        assert(dec_cells(e, s, 0, bw, chk) == Ok::<Seq<u64>, ParseError>(Seq::empty()));
        lemma_dec_rows_total_when_empty(
            e,
            s.subrange(2 * bw * w as int, s.len() as int),
            (k - 1) as nat,
            w,
            bw,
            chk,
        );
    }
}

/// The invalid-tag law: a band whose configuration byte carries the
/// pixel-type nibble 9, or any nibble above 11, fails to decode with
/// exactly that nibble reported.
pub proof fn lemma_invalid_pixtype(e: Endian, s: Seq<u8>, w: u16, h: u16)
    requires
        s.len() >= 2,
        crate::wire::dec_byte(e, s[0], s[1]) % 16 == 9 || crate::wire::dec_byte(e, s[0], s[1]) % 16
            > 11,
    ensures
        dec_band(e, s, w, h) == Err::<(BandV, Seq<u8>), ParseError>(
            ParseError::InvalidPixelType(crate::wire::dec_byte(e, s[0], s[1]) % 16),
        ),
{
    reveal(crate::format::dec_band);
    lemma_pow256_values();
    assert(s.subrange(0, 2)[0] == s[0]);
    assert(s.subrange(0, 2)[1] == s[1]);
    crate::wire::lemma_dec_num_single(e, s.subrange(0, 2));
    let v = dec_num(e, s.subrange(0, 2));
    assert((v as u8) == crate::wire::dec_byte(e, s[0], s[1]));
}

/// The truncation law: any stream shorter than the 122 characters of the
/// 61-byte header fails to decode with a size error, provided the stream
/// does not already fall at the endianness marker.
pub proof fn lemma_truncated_header(s: Seq<u8>)
    requires
        s.len() < 122,
        s.len() >= 2 ==> s[0] == 48 && (s[1] == 48 || s[1] == 49),
    ensures
        dec_raster(s) is Err,
        dec_raster(s)->Err_0 is WrongInputSize,
{
    if s.len() < 2 {
    } else {
        let rest = s.subrange(2, s.len() as int);
        let e = if s[1] == 48 {
            Endian::Big
        } else {
            Endian::Little
        };
        assert(rest.len() < 120);
        lemma_truncated_fields(e, rest);
    }
}

/// Header-field decoding of fewer than 120 characters always stops at a
/// size error.
#[verifier::rlimit(100)]
proof fn lemma_truncated_fields(e: Endian, s: Seq<u8>)
    requires
        s.len() < 120,
    ensures
        dec_header(e, s) is Err,
        dec_header(e, s)->Err_0 is WrongInputSize,
{
    reveal(crate::format::dec_header);
}

/// The endianness law: a stream of at least one character pair that does
/// not begin with `00` or `01` fails with exactly that pair reported.
pub proof fn lemma_bad_endianness(s: Seq<u8>)
    requires
        s.len() >= 2,
        !(s[0] == 48 && (s[1] == 48 || s[1] == 49)),
    ensures
        dec_raster(s) == Err::<RasterV, ParseError>(ParseError::NoEndiannessGiven(s[0], s[1])),
{
}

} // verus!
