//! Spec-level description of the raster stream above the byte layer: the
//! fixed 61-byte header, each band's configuration byte, nodata field and
//! payload, and the decoding functions that read a stream back.  The
//! executable codec's contracts are stated against these functions.

use vstd::prelude::*;
use vstd::utf8::valid_utf8;
use crate::types::{BandV, BoolParseError, Endian, ParseError, PixType, RasterV, SourceV};
use crate::wire::{
    all_hex, dec_byte, dec_num, hex_bytes, hex_pair, i8_of_u8, lemma_all_hex_concat,
    lemma_hex_bytes_all_hex, lemma_hex_pair_all_hex, num_hex, spec_parse_bool, u32_of_i32,
    u8_of_i8,
};

verus! {

// ---------------------------------------------------------------------
// Encoding.

/// The band-header configuration byte: bit 7 offline, bit 6 nodata
/// present, bit 5 nodata-dirty, bit 4 reserved (0), low nibble the
/// pixel-type code.
pub open spec fn config_byte(b: BandV) -> u8 {
    (((if b.data is Offline {
        128int
    } else {
        0int
    }) + (if b.data.pixtype().nodata_bits() is Some {
        64int
    } else {
        0int
    }) + (if b.is_nodata_value {
        32int
    } else {
        0int
    }) + b.data.pixtype().code()) as u8)
}

/// The nodata field after the configuration byte: the sentinel in the
/// pixel type's natural width when present, else exactly one placeholder
/// byte of value 0, whatever the pixel width.
pub open spec fn nodata_hex(e: Endian, pt: PixType) -> Seq<u8> {
    match pt.nodata_bits() {
        Some(v) => num_hex(e, v as nat, pt.byte_width()),
        None => hex_pair(0),
    }
}

/// One grid row: each cell as a `bw`-byte number, left to right.
pub open spec fn row_hex(e: Endian, row: Seq<u64>, bw: nat) -> Seq<u8>
    decreases row.len(),
{
    if row.len() == 0 {
        Seq::empty()
    } else {
        num_hex(e, row.first() as nat, bw) + row_hex(e, row.drop_first(), bw)
    }
}

/// A whole grid, row-major: row 0 first.
pub open spec fn grid_hex(e: Endian, grid: Seq<Seq<u64>>, bw: nat) -> Seq<u8>
    decreases grid.len(),
{
    if grid.len() == 0 {
        Seq::empty()
    } else {
        row_hex(e, grid.first(), bw) + grid_hex(e, grid.drop_first(), bw)
    }
}

/// A band's payload: the grid for an in-memory band; for an offline band
/// the signed band index, then the path bytes, then one NUL byte, all
/// hex-encoded.
pub open spec fn payload_hex(e: Endian, d: SourceV) -> Seq<u8> {
    match d {
        SourceV::Offline { band, path, .. } => hex_pair(u8_of_i8(band)) + (hex_bytes(path)
            + hex_pair(0)),
        SourceV::InMemory { pixtype, grid } => grid_hex(e, grid, pixtype.byte_width()),
    }
}

/// One band on the wire: configuration byte, nodata field, payload.
pub open spec fn band_hex(e: Endian, b: BandV) -> Seq<u8> {
    hex_pair(config_byte(b)) + (nodata_hex(e, b.data.pixtype()) + payload_hex(e, b.data))
}

/// All bands, in list order.
pub open spec fn bands_hex(e: Endian, bs: Seq<BandV>) -> Seq<u8>
    decreases bs.len(),
{
    if bs.len() == 0 {
        Seq::empty()
    } else {
        band_hex(e, bs.first()) + bands_hex(e, bs.drop_first())
    }
}

/// The header fields after the endianness marker, in stream order:
/// version, band count, the six georeference doubles, SRID, width,
/// height.  The band count is the band list's length, truncated to 16
/// bits as the byte encoding falls.
pub open spec fn header_fields_hex(r: RasterV) -> Seq<u8> {
    let e = r.endian;
    num_hex(e, r.version as nat, 2) + (num_hex(e, r.bands.len(), 2) + (num_hex(
        e,
        r.scale_x as nat,
        8,
    ) + (num_hex(e, r.scale_y as nat, 8) + (num_hex(e, r.ip_x as nat, 8) + (num_hex(
        e,
        r.ip_y as nat,
        8,
    ) + (num_hex(e, r.skew_x as nat, 8) + (num_hex(e, r.skew_y as nat, 8) + (num_hex(
        e,
        u32_of_i32(r.srid) as nat,
        4,
    ) + (num_hex(e, r.width as nat, 2) + num_hex(e, r.height as nat, 2))))))))))
}

/// The whole stream: endianness marker, header fields, then the bands.
pub open spec fn wkb_v(r: RasterV) -> Seq<u8> {
    hex_pair(r.endian.marker()) + (header_fields_hex(r) + bands_hex(r.endian, r.bands))
}

// ---------------------------------------------------------------------
// Decoding.

/// Clamps a count to `usize` range; real inputs never reach the clamp.
pub open spec fn clamp_usize(n: nat) -> usize {
    (if n > usize::MAX as nat {
        usize::MAX as nat
    } else {
        n
    }) as usize
}

/// The error for a read that needed `expected` hex characters when only
/// `got` remained.
pub open spec fn size_err(expected: nat, got: nat) -> ParseError {
    ParseError::WrongInputSize { expected_len: clamp_usize(expected), got: clamp_usize(got) }
}

/// Reads one `n`-byte number field: `2 * n` hex characters.
pub open spec fn dec_field(e: Endian, s: Seq<u8>, n: nat) -> Result<(nat, Seq<u8>), ParseError> {
    if s.len() < 2 * n {
        Err(size_err(2 * n, s.len()))
    } else {
        Ok((dec_num(e, s.subrange(0, 2 * n as int)), s.subrange(2 * n as int, s.len() as int)))
    }
}

/// Reads one boolean byte: 0 or 1, anything else an error.
pub open spec fn dec_bool_field(e: Endian, s: Seq<u8>) -> Result<(bool, Seq<u8>), ParseError> {
    if s.len() < 2 {
        Err(size_err(2, s.len()))
    } else {
        match spec_parse_bool(e, s[0], s[1]) {
            Ok(v) => Ok((v, s.subrange(2, s.len() as int))),
            Err(b) => Err(ParseError::UnableToParseBool(b)),
        }
    }
}

/// Reads path bytes one at a time until a NUL byte, which is consumed
/// but not kept; running out of input is a size error.
pub open spec fn dec_path(e: Endian, s: Seq<u8>) -> Result<(Seq<u8>, Seq<u8>), ParseError>
    decreases s.len(),
{
    if s.len() < 2 {
        Err(size_err(2, s.len()))
    } else {
        let b = dec_byte(e, s[0], s[1]);
        let rest = s.subrange(2, s.len() as int);
        if b == 0 {
            Ok((Seq::empty(), rest))
        } else {
            match dec_path(e, rest) {
                Ok(p) => Ok((seq![b] + p.0, p.1)),
                Err(x) => Err(x),
            }
        }
    }
}

/// Reads an offline band's payload: the signed band index, then the
/// NUL-terminated path, whose bytes must be valid UTF-8.
pub open spec fn dec_offline(e: Endian, s: Seq<u8>, pt: PixType) -> Result<
    (SourceV, Seq<u8>),
    ParseError,
> {
    match dec_field(e, s, 1) {
        Err(x) => Err(x),
        Ok((bandv, s1)) => match dec_path(e, s1) {
            Err(x) => Err(x),
            Ok((path, s2)) => if valid_utf8(path) {
                Ok((SourceV::Offline { band: i8_of_u8(bandv as u8), path, pixtype: pt }, s2))
            } else {
                Err(ParseError::PathContainsNonUTF8Chars)
            },
        },
    }
}

/// Reads `k` cells of `bw` bytes each; with `chk` set (boolean grids)
/// each cell must decode to 0 or 1.
pub open spec fn dec_cells(e: Endian, s: Seq<u8>, k: nat, bw: nat, chk: bool) -> Result<
    Seq<u64>,
    ParseError,
>
    decreases k,
{
    if k == 0 {
        Ok(Seq::empty())
    } else {
        let v = dec_num(e, s.subrange(0, 2 * bw as int));
        if chk && v > 1 {
            Err(ParseError::UnableToParseBool(BoolParseError(s[0], s[1], dec_byte(e, s[0], s[1]))))
        } else {
            match dec_cells(e, s.subrange(2 * bw as int, s.len() as int), (k - 1) as nat, bw, chk) {
                Ok(rest) => Ok(seq![v as u64] + rest),
                Err(x) => Err(x),
            }
        }
    }
}

/// Reads `k` rows of `w` cells each.
pub open spec fn dec_rows(e: Endian, s: Seq<u8>, k: nat, w: nat, bw: nat, chk: bool) -> Result<
    Seq<Seq<u64>>,
    ParseError,
>
    decreases k,
{
    if k == 0 {
        Ok(Seq::empty())
    } else {
        match dec_cells(e, s, w, bw, chk) {
            Err(x) => Err(x),
            Ok(row) => match dec_rows(
                e,
                s.subrange(2 * bw * w as int, s.len() as int),
                (k - 1) as nat,
                w,
                bw,
                chk,
            ) {
                Err(x) => Err(x),
                Ok(rest) => Ok(seq![row] + rest),
            },
        }
    }
}

/// Reads a whole `w x h` grid: one length check for the whole region,
/// then the rows; the remainder after exactly the grid's characters is
/// handed back.
pub open spec fn dec_grid(e: Endian, s: Seq<u8>, w: u16, h: u16, bw: nat, chk: bool) -> Result<
    (Seq<Seq<u64>>, Seq<u8>),
    ParseError,
> {
    let total = 2 * bw * (w as nat) * (h as nat);
    if s.len() < total {
        Err(size_err(total, s.len()))
    } else {
        match dec_rows(e, s, h as nat, w as nat, bw, chk) {
            Err(x) => Err(x),
            Ok(g) => Ok((g, s.subrange(total as int, s.len() as int))),
        }
    }
}

/// Reads a band's pixel type: the nodata sentinel in the type's width
/// when announced, else the one placeholder byte.
pub open spec fn dec_band_pixtype(e: Endian, s: Seq<u8>, code: u8, has_nodata: bool) -> Result<
    (PixType, Seq<u8>),
    ParseError,
> {
    if has_nodata {
        if code == 0 {
            match dec_bool_field(e, s) {
                Err(x) => Err(x),
                Ok((bv, s2)) => Ok((PixType::Bool1Bit(Some(bv)), s2)),
            }
        } else {
            match dec_field(e, s, PixType::code_width(code)) {
                Err(x) => Err(x),
                Ok((nv, s2)) => Ok((PixType::of_code(code, Some(nv as u64)), s2)),
            }
        }
    } else {
        match dec_field(e, s, 1) {
            Err(x) => Err(x),
            Ok((ig, s2)) => Ok((PixType::of_code(code, None), s2)),
        }
    }
}

/// Reads a band's payload: the offline reference or the grid.
pub open spec fn dec_band_payload(
    e: Endian,
    s: Seq<u8>,
    pt: PixType,
    is_off: bool,
    w: u16,
    h: u16,
) -> Result<(SourceV, Seq<u8>), ParseError> {
    if is_off {
        dec_offline(e, s, pt)
    } else {
        match dec_grid(e, s, w, h, pt.byte_width(), pt is Bool1Bit) {
            Err(x) => Err(x),
            Ok((grid, s3)) => Ok((SourceV::InMemory { pixtype: pt, grid }, s3)),
        }
    }
}

/// Reads one band: configuration byte, pixel-type code check, nodata
/// field, then the offline reference or the grid.
#[verifier::opaque]
pub open spec fn dec_band(e: Endian, s: Seq<u8>, w: u16, h: u16) -> Result<
    (BandV, Seq<u8>),
    ParseError,
> {
    match dec_field(e, s, 1) {
        Err(x) => Err(x),
        Ok((cfg, s1)) => {
            let cfgb = cfg as u8;
            let is_off = cfgb / 128 % 2 == 1;
            let has_nodata = cfgb / 64 % 2 == 1;
            let dirty = cfgb / 32 % 2 == 1;
            let code = cfgb % 16;
            if !PixType::valid_code(code) {
                Err(ParseError::InvalidPixelType(code))
            } else {
                match dec_band_pixtype(e, s1, code, has_nodata) {
                    Err(x) => Err(x),
                    Ok((pt, s2)) => match dec_band_payload(e, s2, pt, is_off, w, h) {
                        Err(x) => Err(x),
                        Ok((d, s3)) => Ok((BandV { is_nodata_value: dirty, data: d }, s3)),
                    },
                }
            }
        },
    }
}

/// Reads `k` bands in order, threading the remainder.
pub open spec fn dec_bands(e: Endian, s: Seq<u8>, k: nat, w: u16, h: u16) -> Result<
    (Seq<BandV>, Seq<u8>),
    ParseError,
>
    decreases k,
{
    if k == 0 {
        Ok((Seq::empty(), s))
    } else {
        match dec_band(e, s, w, h) {
            Err(x) => Err(x),
            Ok((b, s1)) => match dec_bands(e, s1, (k - 1) as nat, w, h) {
                Err(x) => Err(x),
                Ok((rest, s2)) => Ok((seq![b] + rest, s2)),
            },
        }
    }
}

/// The header fields after the endianness marker.
pub struct HeaderV {
    pub version: u16,
    pub nbands: u16,
    pub scale_x: u64,
    pub scale_y: u64,
    pub ip_x: u64,
    pub ip_y: u64,
    pub skew_x: u64,
    pub skew_y: u64,
    pub srid: i32,
    pub width: u16,
    pub height: u16,
}

/// Reads the six georeference doubles, as their bit patterns, in stream
/// order.
pub open spec fn dec_header_geo(e: Endian, s: Seq<u8>) -> Result<
    ((u64, u64, u64, u64, u64, u64), Seq<u8>),
    ParseError,
> {
    match dec_field(e, s, 8) {
        Err(x) => Err(x),
        Ok((scale_x, s)) => match dec_field(e, s, 8) {
            Err(x) => Err(x),
            Ok((scale_y, s)) => match dec_field(e, s, 8) {
                Err(x) => Err(x),
                Ok((ip_x, s)) => match dec_field(e, s, 8) {
                    Err(x) => Err(x),
                    Ok((ip_y, s)) => match dec_field(e, s, 8) {
                        Err(x) => Err(x),
                        Ok((skew_x, s)) => match dec_field(e, s, 8) {
                            Err(x) => Err(x),
                            Ok((skew_y, s)) => Ok(
                                (
                                    (
                                        scale_x as u64,
                                        scale_y as u64,
                                        ip_x as u64,
                                        ip_y as u64,
                                        skew_x as u64,
                                        skew_y as u64,
                                    ),
                                    s,
                                ),
                            ),
                        },
                    },
                },
            },
        },
    }
}

/// Reads the header's trailer: SRID, width, height, in stream order.
pub open spec fn dec_header_tail(e: Endian, s: Seq<u8>) -> Result<
    ((i32, u16, u16), Seq<u8>),
    ParseError,
> {
    match dec_field(e, s, 4) {
        Err(x) => Err(x),
        Ok((srid, s)) => match dec_field(e, s, 2) {
            Err(x) => Err(x),
            Ok((width, s)) => match dec_field(e, s, 2) {
                Err(x) => Err(x),
                Ok((height, s)) => Ok(
                    ((crate::wire::i32_of_u32(srid as u32), width as u16, height as u16), s),
                ),
            },
        },
    }
}

/// Reads the header fields after the endianness marker, in stream order.
#[verifier::opaque]
pub open spec fn dec_header(e: Endian, s: Seq<u8>) -> Result<(HeaderV, Seq<u8>), ParseError> {
    match dec_field(e, s, 2) {
        Err(x) => Err(x),
        Ok((version, s)) => match dec_field(e, s, 2) {
            Err(x) => Err(x),
            Ok((nbands, s)) => match dec_header_geo(e, s) {
                Err(x) => Err(x),
                Ok((geo, s)) => match dec_header_tail(e, s) {
                    Err(x) => Err(x),
                    Ok((tl, s)) => Ok(
                        (
                            HeaderV {
                                version: version as u16,
                                nbands: nbands as u16,
                                scale_x: geo.0,
                                scale_y: geo.1,
                                ip_x: geo.2,
                                ip_y: geo.3,
                                skew_x: geo.4,
                                skew_y: geo.5,
                                srid: tl.0,
                                width: tl.1,
                                height: tl.2,
                            },
                            s,
                        ),
                    ),
                },
            },
        },
    }
}

/// Reads the header fields and then exactly `nbands` bands; whatever
/// follows the last band is ignored.
pub open spec fn dec_raster_body(e: Endian, s: Seq<u8>) -> Result<RasterV, ParseError> {
    match dec_header(e, s) {
        Err(x) => Err(x),
        Ok((hd, s1)) => match dec_bands(e, s1, hd.nbands as nat, hd.width, hd.height) {
            Err(x) => Err(x),
            Ok((bands, _)) => Ok(
                RasterV {
                    endian: e,
                    version: hd.version,
                    scale_x: hd.scale_x,
                    scale_y: hd.scale_y,
                    ip_x: hd.ip_x,
                    ip_y: hd.ip_y,
                    skew_x: hd.skew_x,
                    skew_y: hd.skew_y,
                    srid: hd.srid,
                    width: hd.width,
                    height: hd.height,
                    bands,
                },
            ),
        },
    }
}

/// Reads a whole stream: the literal leading character pair selects the
/// endianness (`00` big, `01` little); any other pair is an error.
pub open spec fn dec_raster(s: Seq<u8>) -> Result<RasterV, ParseError> {
    if s.len() < 2 {
        Err(size_err(2, s.len()))
    } else {
        let rest = s.subrange(2, s.len() as int);
        if s[0] == 48 && s[1] == 48 {
            dec_raster_body(Endian::Big, rest)
        } else if s[0] == 48 && s[1] == 49 {
            dec_raster_body(Endian::Little, rest)
        } else {
            Err(ParseError::NoEndiannessGiven(s[0], s[1]))
        }
    }
}

// ---------------------------------------------------------------------
// Lemmas the executable encoder leans on.

/// Encoding a row distributes over appending one cell.
pub proof fn lemma_row_hex_push(e: Endian, row: Seq<u64>, c: u64, bw: nat)
    ensures
        row_hex(e, row.push(c), bw) == row_hex(e, row, bw) + num_hex(e, c as nat, bw),
    decreases row.len(),
{
    let item = num_hex(e, c as nat, bw);
    if row.len() == 0 {
        assert(row.push(c).drop_first() =~= Seq::<u64>::empty());
        assert(row.push(c).first() == c);
        assert(row_hex(e, row.push(c), bw) == item + row_hex(e, row.push(c).drop_first(), bw));
        assert(row_hex(e, row.push(c).drop_first(), bw) == Seq::<u8>::empty());
        assert(item + Seq::<u8>::empty() =~= Seq::<u8>::empty() + item);
    } else {
        assert(row.push(c).first() == row.first());
        assert(row.push(c).drop_first() =~= row.drop_first().push(c));
        lemma_row_hex_push(e, row.drop_first(), c, bw);
        let head = num_hex(e, row.first() as nat, bw);
        let tail = row_hex(e, row.drop_first(), bw);
        assert(row_hex(e, row.push(c), bw) == head + (tail + item));
        assert(head + (tail + item) =~= (head + tail) + item);
    }
}

/// Encoding a grid distributes over appending one row.
pub proof fn lemma_grid_hex_push(e: Endian, g: Seq<Seq<u64>>, row: Seq<u64>, bw: nat)
    ensures
        grid_hex(e, g.push(row), bw) == grid_hex(e, g, bw) + row_hex(e, row, bw),
    decreases g.len(),
{
    let item = row_hex(e, row, bw);
    if g.len() == 0 {
        assert(g.push(row).drop_first() =~= Seq::<Seq<u64>>::empty());
        assert(g.push(row).first() == row);
        assert(grid_hex(e, g.push(row), bw) == item + grid_hex(e, g.push(row).drop_first(), bw));
        assert(grid_hex(e, g.push(row).drop_first(), bw) == Seq::<u8>::empty());
        assert(item + Seq::<u8>::empty() =~= Seq::<u8>::empty() + item);
    } else {
        assert(g.push(row).first() == g.first());
        assert(g.push(row).drop_first() =~= g.drop_first().push(row));
        lemma_grid_hex_push(e, g.drop_first(), row, bw);
        let head = row_hex(e, g.first(), bw);
        let tail = grid_hex(e, g.drop_first(), bw);
        assert(grid_hex(e, g.push(row), bw) == head + (tail + item));
        assert(head + (tail + item) =~= (head + tail) + item);
    }
}

/// Encoding a band list distributes over appending one band.
pub proof fn lemma_bands_hex_push(e: Endian, bs: Seq<BandV>, b: BandV)
    ensures
        bands_hex(e, bs.push(b)) == bands_hex(e, bs) + band_hex(e, b),
    decreases bs.len(),
{
    let item = band_hex(e, b);
    if bs.len() == 0 {
        assert(bs.push(b).drop_first() =~= Seq::<BandV>::empty());
        assert(bs.push(b).first() == b);
        assert(bands_hex(e, bs.push(b)) == item + bands_hex(e, bs.push(b).drop_first()));
        assert(bands_hex(e, bs.push(b).drop_first()) == Seq::<u8>::empty());
        assert(item + Seq::<u8>::empty() =~= Seq::<u8>::empty() + item);
    } else {
        assert(bs.push(b).first() == bs.first());
        assert(bs.push(b).drop_first() =~= bs.drop_first().push(b));
        lemma_bands_hex_push(e, bs.drop_first(), b);
        let head = band_hex(e, bs.first());
        let tail = bands_hex(e, bs.drop_first());
        assert(bands_hex(e, bs.push(b)) == head + (tail + item));
        assert(head + (tail + item) =~= (head + tail) + item);
    }
}

// ---------------------------------------------------------------------
// The encoder emits hex characters only.

/// A row's encoding holds only hex characters.
pub proof fn lemma_row_hex_all_hex(e: Endian, row: Seq<u64>, bw: nat)
    ensures
        all_hex(row_hex(e, row, bw)),
    decreases row.len(),
{
    if row.len() > 0 {
        lemma_hex_bytes_all_hex(crate::wire::num_bytes(e, row.first() as nat, bw));
        lemma_row_hex_all_hex(e, row.drop_first(), bw);
        lemma_all_hex_concat(num_hex(e, row.first() as nat, bw), row_hex(e, row.drop_first(), bw));
    }
}

/// A grid's encoding holds only hex characters.
pub proof fn lemma_grid_hex_all_hex(e: Endian, g: Seq<Seq<u64>>, bw: nat)
    ensures
        all_hex(grid_hex(e, g, bw)),
    decreases g.len(),
{
    if g.len() > 0 {
        lemma_row_hex_all_hex(e, g.first(), bw);
        lemma_grid_hex_all_hex(e, g.drop_first(), bw);
        lemma_all_hex_concat(row_hex(e, g.first(), bw), grid_hex(e, g.drop_first(), bw));
    }
}

/// A band's encoding holds only hex characters.
pub proof fn lemma_band_hex_all_hex(e: Endian, b: BandV)
    ensures
        all_hex(band_hex(e, b)),
{
    let pt = b.data.pixtype();
    lemma_hex_pair_all_hex(config_byte(b));
    match pt.nodata_bits() {
        Some(v) => {
            lemma_hex_bytes_all_hex(crate::wire::num_bytes(e, v as nat, pt.byte_width()));
        },
        None => {
            lemma_hex_pair_all_hex(0);
        },
    }
    match b.data {
        SourceV::Offline { band, path, .. } => {
            lemma_hex_pair_all_hex(u8_of_i8(band));
            lemma_hex_bytes_all_hex(path);
            lemma_hex_pair_all_hex(0);
            lemma_all_hex_concat(hex_bytes(path), hex_pair(0));
            lemma_all_hex_concat(hex_pair(u8_of_i8(band)), hex_bytes(path) + hex_pair(0));
        },
        SourceV::InMemory { pixtype, grid } => {
            lemma_grid_hex_all_hex(e, grid, pixtype.byte_width());
        },
    }
    lemma_all_hex_concat(nodata_hex(e, pt), payload_hex(e, b.data));
    lemma_all_hex_concat(hex_pair(config_byte(b)), nodata_hex(e, pt) + payload_hex(e, b.data));
}

/// A band list's encoding holds only hex characters.
pub proof fn lemma_bands_hex_all_hex(e: Endian, bs: Seq<BandV>)
    ensures
        all_hex(bands_hex(e, bs)),
    decreases bs.len(),
{
    if bs.len() > 0 {
        lemma_band_hex_all_hex(e, bs.first());
        lemma_bands_hex_all_hex(e, bs.drop_first());
        lemma_all_hex_concat(band_hex(e, bs.first()), bands_hex(e, bs.drop_first()));
    }
}

/// The whole stream holds only hex characters.
pub proof fn lemma_wkb_all_hex(r: RasterV)
    ensures
        all_hex(wkb_v(r)),
{
    let e = r.endian;
    lemma_hex_pair_all_hex(e.marker());
    let f1 = num_hex(e, r.version as nat, 2);
    let f2 = num_hex(e, r.bands.len(), 2);
    let f3 = num_hex(e, r.scale_x as nat, 8);
    let f4 = num_hex(e, r.scale_y as nat, 8);
    let f5 = num_hex(e, r.ip_x as nat, 8);
    let f6 = num_hex(e, r.ip_y as nat, 8);
    let f7 = num_hex(e, r.skew_x as nat, 8);
    let f8 = num_hex(e, r.skew_y as nat, 8);
    let f9 = num_hex(e, u32_of_i32(r.srid) as nat, 4);
    let f10 = num_hex(e, r.width as nat, 2);
    let f11 = num_hex(e, r.height as nat, 2);
    lemma_hex_bytes_all_hex(crate::wire::num_bytes(e, r.version as nat, 2));
    lemma_hex_bytes_all_hex(crate::wire::num_bytes(e, r.bands.len(), 2));
    lemma_hex_bytes_all_hex(crate::wire::num_bytes(e, r.scale_x as nat, 8));
    lemma_hex_bytes_all_hex(crate::wire::num_bytes(e, r.scale_y as nat, 8));
    lemma_hex_bytes_all_hex(crate::wire::num_bytes(e, r.ip_x as nat, 8));
    lemma_hex_bytes_all_hex(crate::wire::num_bytes(e, r.ip_y as nat, 8));
    lemma_hex_bytes_all_hex(crate::wire::num_bytes(e, r.skew_x as nat, 8));
    lemma_hex_bytes_all_hex(crate::wire::num_bytes(e, r.skew_y as nat, 8));
    lemma_hex_bytes_all_hex(crate::wire::num_bytes(e, u32_of_i32(r.srid) as nat, 4));
    lemma_hex_bytes_all_hex(crate::wire::num_bytes(e, r.width as nat, 2));
    lemma_hex_bytes_all_hex(crate::wire::num_bytes(e, r.height as nat, 2));
    lemma_all_hex_concat(f10, f11);
    lemma_all_hex_concat(f9, f10 + f11);
    lemma_all_hex_concat(f8, f9 + (f10 + f11));
    lemma_all_hex_concat(f7, f8 + (f9 + (f10 + f11)));
    lemma_all_hex_concat(f6, f7 + (f8 + (f9 + (f10 + f11))));
    lemma_all_hex_concat(f5, f6 + (f7 + (f8 + (f9 + (f10 + f11)))));
    lemma_all_hex_concat(f4, f5 + (f6 + (f7 + (f8 + (f9 + (f10 + f11))))));
    lemma_all_hex_concat(f3, f4 + (f5 + (f6 + (f7 + (f8 + (f9 + (f10 + f11)))))));
    lemma_all_hex_concat(f2, f3 + (f4 + (f5 + (f6 + (f7 + (f8 + (f9 + (f10 + f11))))))));
    lemma_all_hex_concat(f1, f2 + (f3 + (f4 + (f5 + (f6 + (f7 + (f8 + (f9 + (f10 + f11)))))))));
    lemma_bands_hex_all_hex(e, r.bands);
    lemma_all_hex_concat(header_fields_hex(r), bands_hex(e, r.bands));
    lemma_all_hex_concat(hex_pair(e.marker()), header_fields_hex(r) + bands_hex(e, r.bands));
}

} // verus!
