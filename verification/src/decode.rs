//! The executable decoder: cursor-style readers over the hex stream,
//! each one proved to return exactly what the corresponding `format`
//! decoding function says.

use vstd::prelude::*;
use vstd::slice::slice_subrange;
use crate::big_endian::{parse_bool_be, parse_u8_be};
use crate::little_endian::{parse_bool_le, parse_u8_le};
use crate::format::{
    dec_band, dec_bands, dec_cells, dec_field, dec_grid, dec_header, dec_offline, dec_path,
    dec_raster, dec_raster_body, dec_rows, size_err, HeaderV,
};
use crate::scalar::{i16_from_bits, i32_from_bits, i8_from_bits, parse_scalar_be, parse_scalar_le};
use crate::pixel::{grid_bits, grid_view, PixelScalar};
use crate::types::{
    BoolParseError, Endian, InMemoryRasterData, OfflineRasterData, ParseError, PixType, Raster,
    RasterBand, RasterDataSource, SourceV,
};
use crate::types::BandV;
use crate::utf8check::check_utf8;
use crate::wire::{dec_byte, dec_num, lemma_pow256_values, pow256, spec_parse_bool};
use vstd::utf8::valid_utf8;

verus! {

/// Takes the two hex characters of one raw byte off the front of the
/// input, handing back the remainder.
pub fn take_slice_1_byte<'a>(input: &'a [u8]) -> (r: Result<([u8; 2], &'a [u8]), ParseError>)
    ensures
        match r {
            Ok(p) => input@.len() >= 2 && p.0@ == input@.subrange(0, 2) && p.1@ == input@.subrange(
                2,
                input@.len() as int,
            ),
            Err(x) => input@.len() < 2 && x == size_err(2, input@.len()),
        },
{
    if input.len() < 2 {
        return Err(ParseError::WrongInputSize { expected_len: 2, got: input.len() });
    }
    let a = [input[0], input[1]];
    proof {
        assert(a@ =~= input@.subrange(0, 2));
    }
    Ok((a, slice_subrange(input, 2, input.len())))
}

/// Takes the four hex characters of two raw bytes off the front of the
/// input.
pub fn take_slice_2_bytes<'a>(input: &'a [u8]) -> (r: Result<([u8; 4], &'a [u8]), ParseError>)
    ensures
        match r {
            Ok(p) => input@.len() >= 4 && p.0@ == input@.subrange(0, 4) && p.1@ == input@.subrange(
                4,
                input@.len() as int,
            ),
            Err(x) => input@.len() < 4 && x == size_err(4, input@.len()),
        },
{
    if input.len() < 4 {
        return Err(ParseError::WrongInputSize { expected_len: 4, got: input.len() });
    }
    let a = [input[0], input[1], input[2], input[3]];
    proof {
        assert(a@ =~= input@.subrange(0, 4));
    }
    Ok((a, slice_subrange(input, 4, input.len())))
}

/// Takes the eight hex characters of four raw bytes off the front of the
/// input.
pub fn take_slice_4_bytes<'a>(input: &'a [u8]) -> (r: Result<([u8; 8], &'a [u8]), ParseError>)
    ensures
        match r {
            Ok(p) => input@.len() >= 8 && p.0@ == input@.subrange(0, 8) && p.1@ == input@.subrange(
                8,
                input@.len() as int,
            ),
            Err(x) => input@.len() < 8 && x == size_err(8, input@.len()),
        },
{
    if input.len() < 8 {
        return Err(ParseError::WrongInputSize { expected_len: 8, got: input.len() });
    }
    let a = [
        input[0],
        input[1],
        input[2],
        input[3],
        input[4],
        input[5],
        input[6],
        input[7],
    ];
    proof {
        assert(a@ =~= input@.subrange(0, 8));
    }
    Ok((a, slice_subrange(input, 8, input.len())))
}

/// Takes the sixteen hex characters of eight raw bytes off the front of
/// the input.
pub fn take_slice_8_bytes<'a>(input: &'a [u8]) -> (r: Result<([u8; 16], &'a [u8]), ParseError>)
    ensures
        match r {
            Ok(p) => input@.len() >= 16 && p.0@ == input@.subrange(0, 16) && p.1@
                == input@.subrange(16, input@.len() as int),
            Err(x) => input@.len() < 16 && x == size_err(16, input@.len()),
        },
{
    if input.len() < 16 {
        return Err(ParseError::WrongInputSize { expected_len: 16, got: input.len() });
    }
    let a = [
        input[0],
        input[1],
        input[2],
        input[3],
        input[4],
        input[5],
        input[6],
        input[7],
        input[8],
        input[9],
        input[10],
        input[11],
        input[12],
        input[13],
        input[14],
        input[15],
    ];
    proof {
        assert(a@ =~= input@.subrange(0, 16));
    }
    Ok((a, slice_subrange(input, 16, input.len())))
}

/// Reads one `bw`-byte number field off the front of the input, in the
/// stream's byte order.
pub(crate) fn parse_bits_field<'a>(input: &'a [u8], e: Endian, bw: usize) -> (r: Result<
    (u64, &'a [u8]),
    ParseError,
>)
    requires
        1 <= bw <= 8,
    ensures
        ({
            let d = dec_field(e, input@, bw as nat);
            match d {
                Ok(p) => r matches Ok(q) && q.0 == p.0 && q.1@ == p.1 && q.0 < pow256(bw as nat),
                Err(x) => r matches Err(y) && y == x,
            }
        }),
{
    if input.len() < 2 * bw {
        return Err(ParseError::WrongInputSize { expected_len: 2 * bw, got: input.len() });
    }
    let chars = slice_subrange(input, 0, 2 * bw);
    let v = match e {
        Endian::Big => parse_scalar_be(chars, bw),
        Endian::Little => parse_scalar_le(chars, bw),
    };
    let rest = slice_subrange(input, 2 * bw, input.len());
    Ok((v, rest))
}

/// Reads one boolean byte in the stream's byte order.
pub(crate) fn parse_bool_e(input: [u8; 2], e: Endian) -> (r: Result<bool, BoolParseError>)
    ensures
        r == spec_parse_bool(e, input@[0], input@[1]),
{
    match e {
        Endian::Big => parse_bool_be(input),
        Endian::Little => parse_bool_le(input),
    }
}

/// Builds the pixel type named by a band-header code, with the nodata
/// sentinel recovered from its wire bit pattern.
pub(crate) fn pixtype_from_code(code: u8, nodata: Option<u64>) -> (pt: PixType)
    requires
        PixType::valid_code(code),
        nodata matches Some(v) ==> v < pow256(PixType::code_width(code)),
    ensures
        pt == PixType::of_code(code, nodata),
{
    proof {
        lemma_pow256_values();
    }
    match code {
        0 => PixType::Bool1Bit(
            match nodata {
                Some(v) => Some(v == 1),
                None => None,
            },
        ),
        1 => PixType::UInt2(
            match nodata {
                Some(v) => Some(v as u8),
                None => None,
            },
        ),
        2 => PixType::UInt4(
            match nodata {
                Some(v) => Some(v as u8),
                None => None,
            },
        ),
        3 => PixType::Int8(
            match nodata {
                Some(v) => Some(i8_from_bits(v as u8)),
                None => None,
            },
        ),
        4 => PixType::UInt8(
            match nodata {
                Some(v) => Some(v as u8),
                None => None,
            },
        ),
        5 => PixType::Int16(
            match nodata {
                Some(v) => Some(i16_from_bits(v as u16)),
                None => None,
            },
        ),
        6 => PixType::UInt16(
            match nodata {
                Some(v) => Some(v as u16),
                None => None,
            },
        ),
        7 => PixType::Int32(
            match nodata {
                Some(v) => Some(i32_from_bits(v as u32)),
                None => None,
            },
        ),
        8 => PixType::UInt32(
            match nodata {
                Some(v) => Some(v as u32),
                None => None,
            },
        ),
        10 => PixType::Float32(
            match nodata {
                Some(v) => Some(v as u32),
                None => None,
            },
        ),
        _ => PixType::Float64(nodata),
    }
}

/// Reads a whole `w x h` grid of `bw`-byte cells: one length check for
/// the region, then the cells row-major; with `chk` set (boolean grids)
/// each cell must decode to 0 or 1.
#[verifier::rlimit(100)]
pub(crate) fn parse_grid<'a>(input: &'a [u8], e: Endian, w: u16, h: u16, bw: usize, chk: bool) -> (r:
    Result<(Vec<Vec<u64>>, &'a [u8]), ParseError>)
    requires
        1 <= bw <= 8,
        chk ==> bw == 1,
    ensures
        ({
            let d = dec_grid(e, input@, w, h, bw as nat, chk);
            match d {
                Ok(p) => r matches Ok(q) && grid_view(q.0@) == p.0 && q.1@ == p.1 && q.0@.len()
                    == h && (forall|i: int|
                    0 <= i < q.0@.len() ==> (#[trigger] q.0@[i])@.len() == w) && (forall|
                    i: int,
                    j: int,
                |
                    0 <= i < q.0@.len() && 0 <= j < q.0@[i]@.len() ==> (#[trigger] q.0@[i]@[j])
                        < pow256(bw as nat) && (chk ==> q.0@[i]@[j] <= 1)),
                Err(x) => r matches Err(y) && y == x,
            }
        }),
{
    let ghost totaln: nat = 2 * (bw as nat) * (w as nat) * (h as nat);
    proof {
        assert(2 * (bw as int) * (w as int) <= 0x100000) by (nonlinear_arith)
            requires
                bw <= 8,
                w < 0x10000,
        ;
        assert(2 * (bw as int) * (w as int) * (h as int) <= 0x10000000000) by (nonlinear_arith)
            requires
                bw <= 8,
                w < 0x10000,
                h < 0x10000,
        ;
    }
    let total64: u64 = 2u64 * (bw as u64) * (w as u64) * (h as u64);
    proof {
        assert(total64 == totaln) by (nonlinear_arith)
            requires
                total64 == 2 * (bw as u64) * (w as u64) * (h as u64),
                totaln == 2 * (bw as nat) * (w as nat) * (h as nat),
        ;
    }
    if (input.len() as u64) < total64 {
        let expected: usize = if total64 > (usize::MAX as u64) {
            usize::MAX
        } else {
            total64 as usize
        };
        return Err(ParseError::WrongInputSize { expected_len: expected, got: input.len() });
    }
    let total: usize = total64 as usize;
    let wl: usize = w as usize;
    let hl: usize = h as usize;
    let step: usize = 2 * bw;
    let ghost n = input@.len() as int;
    let mut rows: Vec<Vec<u64>> = Vec::new();
    let mut pos: usize = 0;
    proof {
        assert(grid_view(rows@) =~= Seq::<Seq<u64>>::empty());
        assert(input@.subrange(0, n) =~= input@);
        let d0 = dec_rows(e, input@.subrange(0, n), h as nat, w as nat, bw as nat, chk);
        match d0 {
            Ok(rest) => {
                assert(grid_view(rows@) + rest =~= rest);
            },
            Err(x) => {},
        }
    }
    let mut i: usize = 0;
    while i < hl
        invariant
            i <= hl,
            wl == w,
            hl == h,
            step == 2 * bw,
            1 <= bw <= 8,
            chk ==> bw == 1,
            n == input@.len(),
            totaln <= input@.len(),
            total == totaln,
            totaln == 2 * (bw as int) * (w as int) * (h as int),
            pos as int == 2 * (bw as int) * (w as int) * (i as int),
            pos <= total,
            rows@.len() == i,
            forall|k: int| 0 <= k < i ==> (#[trigger] rows@[k])@.len() == w,
            forall|k: int, l: int|
                0 <= k < i && 0 <= l < rows@[k]@.len() ==> (#[trigger] rows@[k]@[l]) < pow256(
                    bw as nat,
                ) && (chk ==> rows@[k]@[l] <= 1),
            dec_rows(e, input@, h as nat, w as nat, bw as nat, chk) == (match dec_rows(
                e,
                input@.subrange(pos as int, n),
                (h - i) as nat,
                w as nat,
                bw as nat,
                chk,
            ) {
                Ok(rest) => Ok(grid_view(rows@) + rest),
                Err(x) => Err::<Seq<Seq<u64>>, ParseError>(x),
            }),
        decreases hl - i,
    {
        let ghost row_start = pos as int;
        proof {
            assert(2 * (bw as int) * (w as int) * ((i + 1) as int) <= 2 * (bw as int) * (
            w as int) * (h as int)) by (nonlinear_arith)
                requires
                    i < h,
                    bw >= 1,
                    w >= 0,
            ;
            assert(row_start + 2 * (bw as int) * (w as int) == 2 * (bw as int) * (w as int) * ((i
                + 1) as int)) by (nonlinear_arith)
                requires
                    row_start == 2 * (bw as int) * (w as int) * (i as int),
            ;
        }
        let mut rowv: Vec<u64> = Vec::new();
        let mut j: usize = 0;
        proof {
            let d0 = dec_cells(e, input@.subrange(row_start, n), w as nat, bw as nat, chk);
            match d0 {
                Ok(rest) => {
                    assert(rowv@ + rest =~= rest);
                },
                Err(x) => {},
            }
        }
        while j < wl
            invariant
                j <= wl,
                i < hl,
                wl == w,
                hl == h,
                step == 2 * bw,
                1 <= bw <= 8,
                chk ==> bw == 1,
                n == input@.len(),
                totaln <= input@.len(),
                total == totaln,
                totaln == 2 * (bw as int) * (w as int) * (h as int),
                row_start == 2 * (bw as int) * (w as int) * (i as int),
                row_start + 2 * (bw as int) * (w as int) <= totaln,
                pos as int == row_start + 2 * (bw as int) * (j as int),
                rowv@.len() == j,
                forall|l: int|
                    0 <= l < j ==> (#[trigger] rowv@[l]) < pow256(bw as nat) && (chk ==> rowv@[l]
                        <= 1),
                dec_cells(e, input@.subrange(row_start, n), w as nat, bw as nat, chk) == (match
                    dec_cells(
                    e,
                    input@.subrange(pos as int, n),
                    (w - j) as nat,
                    bw as nat,
                    chk,
                ) {
                    Ok(rest) => Ok(rowv@ + rest),
                    Err(x) => Err::<Seq<u64>, ParseError>(x),
                }),
                dec_rows(e, input@, h as nat, w as nat, bw as nat, chk) == (match dec_rows(
                    e,
                    input@.subrange(row_start, n),
                    (h - i) as nat,
                    w as nat,
                    bw as nat,
                    chk,
                ) {
                    Ok(rest) => Ok(grid_view(rows@) + rest),
                    Err(x) => Err::<Seq<Seq<u64>>, ParseError>(x),
                }),
            decreases wl - j,
        {
            proof {
                assert(2 * (bw as int) * ((j + 1) as int) <= 2 * (bw as int) * (w as int))
                    by (nonlinear_arith)
                    requires
                        j < w,
                        bw >= 1,
                ;
                assert(2 * (bw as int) * ((j + 1) as int) == 2 * (bw as int) * (j as int) + 2 * (
                bw as int)) by (nonlinear_arith);
                assert(pos + step <= totaln);
            }
            let ghost scur = input@.subrange(pos as int, n);
            let cell = slice_subrange(input, pos, pos + step);
            let v = match e {
                Endian::Big => parse_scalar_be(cell, bw),
                Endian::Little => parse_scalar_le(cell, bw),
            };
            proof {
                assert(scur.subrange(0, (2 * bw) as int) =~= input@.subrange(
                    pos as int,
                    pos + step,
                ));
                assert(v == dec_num(e, scur.subrange(0, (2 * bw) as int)));
            }
            if chk && v > 1 {
                proof {
                    lemma_pow256_values();
                    assert(scur.subrange(0, 2) =~= input@.subrange(pos as int, pos + 2));
                    crate::wire::lemma_dec_num_single(e, scur.subrange(0, 2));
                    assert(scur.subrange(0, 2)[0] == scur[0]);
                    assert(scur.subrange(0, 2)[1] == scur[1]);
                    assert(dec_num(e, scur.subrange(0, 2)) == dec_byte(e, scur[0], scur[1]));
                    assert(scur[0] == input@[pos as int]);
                    assert(scur[1] == input@[pos as int + 1]);
                    assert(v as u8 == dec_byte(e, scur[0], scur[1]));
                    let eb = ParseError::UnableToParseBool(
                        BoolParseError(scur[0], scur[1], dec_byte(e, scur[0], scur[1])),
                    );
                    assert(dec_cells(e, scur, (w - j) as nat, bw as nat, chk) == Err::<
                        Seq<u64>,
                        ParseError,
                    >(eb));
                    assert(dec_cells(e, input@.subrange(row_start, n), w as nat, bw as nat, chk)
                        == Err::<Seq<u64>, ParseError>(eb));
                    assert(dec_rows(
                        e,
                        input@.subrange(row_start, n),
                        (h - i) as nat,
                        w as nat,
                        bw as nat,
                        chk,
                    ) == Err::<Seq<Seq<u64>>, ParseError>(eb));
                    assert(dec_rows(e, input@, h as nat, w as nat, bw as nat, chk) == Err::<
                        Seq<Seq<u64>>,
                        ParseError,
                    >(eb));
                    assert(dec_grid(e, input@, w, h, bw as nat, chk) == Err::<
                        (Seq<Seq<u64>>, Seq<u8>),
                        ParseError,
                    >(eb));
                }
                return Err(
                    ParseError::UnableToParseBool(
                        BoolParseError(input[pos], input[pos + 1], v as u8),
                    ),
                );
            }
            let ghost rowv_old = rowv@;
            rowv.push(v);
            pos = pos + step;
            proof {
                assert(rowv@ == rowv_old.push(v));
                assert(scur.subrange((2 * bw) as int, scur.len() as int) =~= input@.subrange(
                    pos as int,
                    n,
                ));
                let d = dec_cells(e, input@.subrange(pos as int, n), (w - j - 1) as nat, bw as nat, chk);
                match d {
                    Ok(rest) => {
                        assert(rowv@ + rest =~= rowv_old + (seq![v] + rest));
                    },
                    Err(x) => {},
                }
            }
            j = j + 1;
        }
        proof {
            let dempty = dec_cells(e, input@.subrange(pos as int, n), 0, bw as nat, chk);
            assert(dempty == Ok::<Seq<u64>, ParseError>(Seq::empty()));
            assert(rowv@ + Seq::<u64>::empty() =~= rowv@);
            assert(dec_cells(e, input@.subrange(row_start, n), w as nat, bw as nat, chk) == Ok::<
                Seq<u64>,
                ParseError,
            >(rowv@));
        }
        let ghost rows_old = rows@;
        rows.push(rowv);
        proof {
            assert(rows@ == rows_old.push(rowv));
            assert(input@.subrange(row_start, n).subrange(
                2 * (bw as int) * (w as int),
                n - row_start,
            ) =~= input@.subrange(pos as int, n));
            assert(grid_view(rows@) =~= grid_view(rows_old).push(rowv@));
            let d = dec_rows(e, input@.subrange(pos as int, n), (h - i - 1) as nat, w as nat, bw as nat, chk);
            assert(dec_rows(
                e,
                input@.subrange(row_start, n),
                (h - i) as nat,
                w as nat,
                bw as nat,
                chk,
            ) == (match d {
                Ok(rest) => Ok::<Seq<Seq<u64>>, ParseError>(seq![rowv@] + rest),
                Err(x) => Err::<Seq<Seq<u64>>, ParseError>(x),
            }));
            match d {
                Ok(rest) => {
                    assert(grid_view(rows@) + rest =~= grid_view(rows_old) + (seq![rowv@] + rest));
                },
                Err(x) => {},
            }
            assert(2 * (bw as int) * (j as int) == 2 * (bw as int) * (w as int)) by (nonlinear_arith)
                requires
                    j == w,
            ;
            assert(pos as int == 2 * (bw as int) * (w as int) * ((i + 1) as int));
        }
        i = i + 1;
    }
    proof {
        lemma_pow256_values();
        assert(pos == total);
        let dempty = dec_rows(e, input@.subrange(pos as int, n), 0, w as nat, bw as nat, chk);
        assert(dempty == Ok::<Seq<Seq<u64>>, ParseError>(Seq::empty()));
        assert(grid_view(rows@) + Seq::<Seq<u64>>::empty() =~= grid_view(rows@));
        assert(dec_rows(e, input@, h as nat, w as nat, bw as nat, chk) == Ok::<
            Seq<Seq<u64>>,
            ParseError,
        >(grid_view(rows@)));
    }
    let rest = slice_subrange(input, total, input.len());
    Ok((rows, rest))
}

/// Reads one hex-encoded byte in the stream's byte order.
fn parse_u8_e(input: [u8; 2], e: Endian) -> (r: u8)
    ensures
        r == dec_byte(e, input@[0], input@[1]),
{
    match e {
        Endian::Big => parse_u8_be(input),
        Endian::Little => parse_u8_le(input),
    }
}

/// Converts a grid of wire bit patterns into typed pixel values.
fn rows_from_bits<T: PixelScalar>(cells: &Vec<Vec<u64>>) -> (out: Vec<Vec<T>>)
    requires
        forall|i: int, j: int|
            0 <= i < cells@.len() && 0 <= j < cells@[i]@.len() ==> T::valid_bits(
                #[trigger] cells@[i]@[j],
            ),
    ensures
        grid_bits(out@) == grid_view(cells@),
{
    let mut out: Vec<Vec<T>> = Vec::new();
    let mut i: usize = 0;
    while i < cells.len()
        invariant
            i <= cells@.len(),
            out@.len() == i,
            forall|k: int, j: int|
                0 <= k < cells@.len() && 0 <= j < cells@[k]@.len() ==> T::valid_bits(
                    #[trigger] cells@[k]@[j],
                ),
            forall|k: int| 0 <= k < i ==> (#[trigger] out@[k])@.len() == cells@[k]@.len(),
            forall|k: int, l: int|
                0 <= k < i && 0 <= l < out@[k]@.len() ==> (#[trigger] out@[k]@[l]).as_bits()
                    == cells@[k]@[l],
        decreases cells@.len() - i,
    {
        let row = &cells[i];
        let mut rowv: Vec<T> = Vec::new();
        let mut j: usize = 0;
        while j < row.len()
            invariant
                j <= row@.len(),
                i < cells@.len(),
                row@ == cells@[i as int]@,
                rowv@.len() == j,
                forall|k: int, l: int|
                    0 <= k < cells@.len() && 0 <= l < cells@[k]@.len() ==> T::valid_bits(
                        #[trigger] cells@[k]@[l],
                    ),
                forall|l: int|
                    0 <= l < j ==> (#[trigger] rowv@[l]).as_bits() == row@[l],
            decreases row@.len() - j,
        {
            let c = T::of_bits(row[j]);
            rowv.push(c);
            j = j + 1;
        }
        out.push(rowv);
        i = i + 1;
    }
    proof {
        assert(grid_bits(out@) =~~= grid_view(cells@));
    }
    out
}

/// Reads the in-memory payload of a band: the whole pixel grid in the
/// band's pixel type.
#[verifier::rlimit(100)]
pub(crate) fn parse_memory<'a>(input: &'a [u8], e: Endian, pt: PixType, width: u16, height: u16) -> (r:
    Result<(RasterDataSource, &'a [u8]), ParseError>)
    ensures
        ({
            let d = dec_grid(e, input@, width, height, pt.byte_width(), pt is Bool1Bit);
            match d {
                Ok(p) => r matches Ok(q) && q.0@ == (SourceV::InMemory { pixtype: pt, grid: p.0 })
                    && q.1@ == p.1 && q.0@.wf(width, height),
                Err(x) => r matches Err(y) && y == x,
            }
        }),
{
    let bw = pt.width_bytes();
    let chk = match pt {
        PixType::Bool1Bit(_) => true,
        _ => false,
    };
    let (cells, rest) = match parse_grid(input, e, width, height, bw, chk) {
        Ok(p) => p,
        Err(x) => {
            return Err(x);
        },
    };
    proof {
        lemma_pow256_values();
    }
    match pt {
        PixType::Bool1Bit(nd) => {
            let data = rows_from_bits::<bool>(&cells);
            Ok((RasterDataSource::InMemory(InMemoryRasterData::Bool1Bit { data, nodata: nd }), rest))
        },
        PixType::UInt2(nd) => {
            let data = rows_from_bits::<u8>(&cells);
            Ok((RasterDataSource::InMemory(InMemoryRasterData::UInt2 { data, nodata: nd }), rest))
        },
        PixType::UInt4(nd) => {
            let data = rows_from_bits::<u8>(&cells);
            Ok((RasterDataSource::InMemory(InMemoryRasterData::UInt4 { data, nodata: nd }), rest))
        },
        PixType::Int8(nd) => {
            let data = rows_from_bits::<i8>(&cells);
            Ok((RasterDataSource::InMemory(InMemoryRasterData::Int8 { data, nodata: nd }), rest))
        },
        PixType::UInt8(nd) => {
            let data = rows_from_bits::<u8>(&cells);
            Ok((RasterDataSource::InMemory(InMemoryRasterData::UInt8 { data, nodata: nd }), rest))
        },
        PixType::Int16(nd) => {
            let data = rows_from_bits::<i16>(&cells);
            Ok((RasterDataSource::InMemory(InMemoryRasterData::Int16 { data, nodata: nd }), rest))
        },
        PixType::UInt16(nd) => {
            let data = rows_from_bits::<u16>(&cells);
            Ok((RasterDataSource::InMemory(InMemoryRasterData::UInt16 { data, nodata: nd }), rest))
        },
        PixType::Int32(nd) => {
            let data = rows_from_bits::<i32>(&cells);
            Ok((RasterDataSource::InMemory(InMemoryRasterData::Int32 { data, nodata: nd }), rest))
        },
        PixType::UInt32(nd) => {
            let data = rows_from_bits::<u32>(&cells);
            Ok((RasterDataSource::InMemory(InMemoryRasterData::UInt32 { data, nodata: nd }), rest))
        },
        PixType::Float32(nd) => {
            let data = rows_from_bits::<u32>(&cells);
            Ok((RasterDataSource::InMemory(InMemoryRasterData::Float32 { data, nodata: nd }), rest))
        },
        PixType::Float64(nd) => {
            let data = rows_from_bits::<u64>(&cells);
            Ok((RasterDataSource::InMemory(InMemoryRasterData::Float64 { data, nodata: nd }), rest))
        },
    }
}

/// Reads the offline payload of a band: the signed band index, then the
/// NUL-terminated path, whose bytes must be valid UTF-8.
pub(crate) fn parse_offline<'a>(input: &'a [u8], e: Endian, pt: PixType) -> (r: Result<
    (RasterDataSource, &'a [u8]),
    ParseError,
>)
    ensures
        ({
            let d = dec_offline(e, input@, pt);
            match d {
                Ok(p) => r matches Ok(q) && q.0@ == p.0 && q.1@ == p.1 && (q.0@ matches
                    SourceV::Offline { path: pth, .. } && valid_utf8(pth) && (forall|k: int|
                    0 <= k < pth.len() ==> pth[k] != 0)),
                Err(x) => r matches Err(y) && y == x,
            }
        }),
{
    let (bandv, s1) = match parse_bits_field(input, e, 1) {
        Ok(p) => p,
        Err(x) => {
            return Err(x);
        },
    };
    proof {
        lemma_pow256_values();
    }
    let band = i8_from_bits(bandv as u8);
    let mut path: Vec<u8> = Vec::new();
    let mut cur = s1;
    proof {
        let d0 = dec_path(e, s1@);
        match d0 {
            Ok(p) => {
                assert(path@ + p.0 =~= p.0);
            },
            Err(x) => {},
        }
    }
    loop
        invariant_except_break
            dec_field(e, input@, 1) == Ok::<(nat, Seq<u8>), ParseError>((bandv as nat, s1@)),
            dec_path(e, s1@) == (match dec_path(e, cur@) {
                Ok(p) => Ok::<(Seq<u8>, Seq<u8>), ParseError>((path@ + p.0, p.1)),
                Err(x) => Err::<(Seq<u8>, Seq<u8>), ParseError>(x),
            }),
            forall|k: int| 0 <= k < path@.len() ==> path@[k] != 0,
        ensures
            dec_path(e, s1@) == Ok::<(Seq<u8>, Seq<u8>), ParseError>((path@, cur@)),
            forall|k: int| 0 <= k < path@.len() ==> path@[k] != 0,
        decreases cur@.len(),
    {
        if cur.len() < 2 {
            proof {
                assert(dec_path(e, cur@) == Err::<(Seq<u8>, Seq<u8>), ParseError>(
                    size_err(2, cur@.len()),
                ));
            }
            return Err(ParseError::WrongInputSize { expected_len: 2, got: cur.len() });
        }
        let pair = [cur[0], cur[1]];
        let b = parse_u8_e(pair, e);
        let rest2 = slice_subrange(cur, 2, cur.len());
        if b == 0 {
            let ghost cur_old = cur@;
            cur = rest2;
            proof {
                assert(dec_path(e, cur_old) == Ok::<(Seq<u8>, Seq<u8>), ParseError>(
                    (Seq::empty(), cur@),
                ));
                assert(path@ + Seq::<u8>::empty() =~= path@);
            }
            break;
        }
        let ghost path_old = path@;
        let ghost cur_old = cur@;
        path.push(b);
        cur = rest2;
        proof {
            assert(path@ == path_old.push(b));
            let d = dec_path(e, cur@);
            assert(dec_path(e, cur_old) == (match d {
                Ok(p) => Ok::<(Seq<u8>, Seq<u8>), ParseError>((seq![b] + p.0, p.1)),
                Err(x) => Err::<(Seq<u8>, Seq<u8>), ParseError>(x),
            }));
            match d {
                Ok(p) => {
                    assert(path_old + (seq![b] + p.0) =~= path@ + p.0);
                },
                Err(x) => {},
            }
        }
    }
    if !check_utf8(path.as_slice()) {
        return Err(ParseError::PathContainsNonUTF8Chars);
    }
    Ok((RasterDataSource::Offline(OfflineRasterData { band, path, pixtype: pt }), cur))
}

/// Reads the header fields after the endianness marker, in stream order.
#[verifier::rlimit(100)]
pub(crate) fn parse_header<'a>(input: &'a [u8], e: Endian) -> (r: Result<
    (HeaderV, &'a [u8]),
    ParseError,
>)
    ensures
        ({
            let d = dec_header(e, input@);
            match d {
                Ok(p) => r matches Ok(q) && q.0 == p.0 && q.1@ == p.1,
                Err(x) => r matches Err(y) && y == x,
            }
        }),
{
    proof {
        reveal(crate::format::dec_header);
        lemma_pow256_values();
    }
    let (version, s) = match parse_bits_field(input, e, 2) {
        Ok(p) => p,
        Err(x) => {
            return Err(x);
        },
    };
    let (nbands, s) = match parse_bits_field(s, e, 2) {
        Ok(p) => p,
        Err(x) => {
            return Err(x);
        },
    };
    let (scale_x, s) = match parse_bits_field(s, e, 8) {
        Ok(p) => p,
        Err(x) => {
            return Err(x);
        },
    };
    let (scale_y, s) = match parse_bits_field(s, e, 8) {
        Ok(p) => p,
        Err(x) => {
            return Err(x);
        },
    };
    let (ip_x, s) = match parse_bits_field(s, e, 8) {
        Ok(p) => p,
        Err(x) => {
            return Err(x);
        },
    };
    let (ip_y, s) = match parse_bits_field(s, e, 8) {
        Ok(p) => p,
        Err(x) => {
            return Err(x);
        },
    };
    let (skew_x, s) = match parse_bits_field(s, e, 8) {
        Ok(p) => p,
        Err(x) => {
            return Err(x);
        },
    };
    let (skew_y, s) = match parse_bits_field(s, e, 8) {
        Ok(p) => p,
        Err(x) => {
            return Err(x);
        },
    };
    let (srid, s) = match parse_bits_field(s, e, 4) {
        Ok(p) => p,
        Err(x) => {
            return Err(x);
        },
    };
    let (width, s) = match parse_bits_field(s, e, 2) {
        Ok(p) => p,
        Err(x) => {
            return Err(x);
        },
    };
    let (height, s) = match parse_bits_field(s, e, 2) {
        Ok(p) => p,
        Err(x) => {
            return Err(x);
        },
    };
    let hd = HeaderV {
        version: version as u16,
        nbands: nbands as u16,
        scale_x,
        scale_y,
        ip_x,
        ip_y,
        skew_x,
        skew_y,
        srid: i32_from_bits(srid as u32),
        width: width as u16,
        height: height as u16,
    };
    Ok((hd, s))
}

/// Reads one band: configuration byte, pixel-type code, nodata field,
/// then the offline reference or the grid.
#[verifier::rlimit(100)]
pub(crate) fn parse_band<'a>(input: &'a [u8], e: Endian, width: u16, height: u16) -> (r: Result<
    (RasterBand, &'a [u8]),
    ParseError,
>)
    ensures
        ({
            let d = dec_band(e, input@, width, height);
            match d {
                Ok(p) => r matches Ok(q) && q.0@ == p.0 && q.1@ == p.1 && p.0.data.wf(
                    width,
                    height,
                ),
                Err(x) => r matches Err(y) && y == x,
            }
        }),
{
    proof {
        reveal(crate::format::dec_band);
        lemma_pow256_values();
    }
    let (cfgv, s1) = match parse_bits_field(input, e, 1) {
        Ok(p) => p,
        Err(x) => {
            return Err(x);
        },
    };
    let cfgb = cfgv as u8;
    let is_off = (cfgb & 0x80) >> 7 != 0;
    let has_nodata = (cfgb & 0x40) >> 6 != 0;
    let dirty = (cfgb & 0x20) >> 5 != 0;
    let code = cfgb & 0x0F;
    proof {
        assert((((cfgb & 0x80) >> 7 != 0) == (cfgb / 128 % 2 == 1)) && (((cfgb & 0x40) >> 6 != 0)
            == (cfgb / 64 % 2 == 1)) && (((cfgb & 0x20) >> 5 != 0) == (cfgb / 32 % 2 == 1)) && ((
        cfgb & 0x0F) == cfgb % 16)) by (bit_vector);
    }
    if code == 9 || code > 11 {
        return Err(ParseError::InvalidPixelType(code));
    }
    let (pt, s2): (PixType, &[u8]) = if has_nodata {
        if code == 0 {
            let (pair, s2) = match take_slice_1_byte(s1) {
                Ok(p) => p,
                Err(x) => {
                    return Err(x);
                },
            };
            let bv = match parse_bool_e(pair, e) {
                Ok(v) => v,
                Err(b) => {
                    return Err(ParseError::UnableToParseBool(b));
                },
            };
            (PixType::Bool1Bit(Some(bv)), s2)
        } else {
            let wd: usize = if code <= 4 {
                1
            } else if code <= 6 {
                2
            } else if code == 11 {
                8
            } else {
                4
            };
            proof {
                assert(wd as nat == PixType::code_width(code));
            }
            let (nv, s2) = match parse_bits_field(s1, e, wd) {
                Ok(p) => p,
                Err(x) => {
                    return Err(x);
                },
            };
            (pixtype_from_code(code, Some(nv)), s2)
        }
    } else {
        let (_placeholder, s2) = match parse_bits_field(s1, e, 1) {
            Ok(p) => p,
            Err(x) => {
                return Err(x);
            },
        };
        (pixtype_from_code(code, None), s2)
    };
    proof {
        assert(pt.byte_width() == PixType::code_width(code));
        assert((pt is Bool1Bit) == (code == 0));
    }
    if is_off {
        match parse_offline(s2, e, pt) {
            Ok(p) => {
                let band = RasterBand { is_nodata_value: dirty, data: p.0 };
                Ok((band, p.1))
            },
            Err(x) => Err(x),
        }
    } else {
        match parse_memory(s2, e, pt, width, height) {
            Ok(p) => {
                let band = RasterBand { is_nodata_value: dirty, data: p.0 };
                Ok((band, p.1))
            },
            Err(x) => Err(x),
        }
    }
}

/// Reads the header fields and then exactly as many bands as the header
/// announced; whatever follows the last band is ignored.
#[verifier::rlimit(100)]
pub(crate) fn parse_raster_body<'a>(input: &'a [u8], e: Endian) -> (r: Result<Raster, ParseError>)
    ensures
        ({
            let d = dec_raster_body(e, input@);
            match d {
                Ok(rv) => r matches Ok(x) && x@ == rv && x.wf(),
                Err(er) => r matches Err(y) && y == er,
            }
        }),
{
    let (hd, s1) = match parse_header(input, e) {
        Ok(p) => p,
        Err(x) => {
            return Err(x);
        },
    };
    let nb = hd.nbands;
    let mut bands: Vec<RasterBand> = Vec::new();
    let mut cur = s1;
    let mut k: u16 = 0;
    proof {
        let d0 = dec_bands(e, s1@, nb as nat, hd.width, hd.height);
        match d0 {
            Ok(p) => {
                assert(bands@.map_values(|b: RasterBand| b@) + p.0 =~= p.0);
            },
            Err(x) => {},
        }
    }
    while k < nb
        invariant
            k <= nb,
            bands@.len() == k,
            dec_header(e, input@) == Ok::<(HeaderV, Seq<u8>), ParseError>((hd, s1@)),
            nb == hd.nbands,
            dec_bands(e, s1@, nb as nat, hd.width, hd.height) == (match dec_bands(
                e,
                cur@,
                (nb - k) as nat,
                hd.width,
                hd.height,
            ) {
                Ok(p) => Ok::<(Seq<BandV>, Seq<u8>), ParseError>(
                    (bands@.map_values(|b: RasterBand| b@) + p.0, p.1),
                ),
                Err(x) => Err::<(Seq<BandV>, Seq<u8>), ParseError>(x),
            }),
            forall|l: int|
                0 <= l < bands@.len() ==> (#[trigger] bands@[l])@.data.wf(hd.width, hd.height),
        decreases nb - k,
    {
        let (b, rest) = match parse_band(cur, e, hd.width, hd.height) {
            Ok(p) => p,
            Err(x) => {
                return Err(x);
            },
        };
        let ghost bands_old = bands@;
        let ghost cur_old = cur@;
        bands.push(b);
        cur = rest;
        proof {
            assert(bands@ == bands_old.push(b));
            assert(bands@.map_values(|bb: RasterBand| bb@) =~= bands_old.map_values(
                |bb: RasterBand| bb@,
            ).push(b@));
            let d = dec_bands(e, cur@, (nb - k - 1) as nat, hd.width, hd.height);
            assert(dec_bands(e, cur_old, (nb - k) as nat, hd.width, hd.height) == (match d {
                Ok(p) => Ok::<(Seq<BandV>, Seq<u8>), ParseError>((seq![b@] + p.0, p.1)),
                Err(x) => Err::<(Seq<BandV>, Seq<u8>), ParseError>(x),
            }));
            match d {
                Ok(p) => {
                    assert(bands_old.map_values(|bb: RasterBand| bb@) + (seq![b@] + p.0)
                        =~= bands@.map_values(|bb: RasterBand| bb@) + p.0);
                },
                Err(x) => {},
            }
        }
        k = k + 1;
    }
    proof {
        let dempty = dec_bands(e, cur@, 0, hd.width, hd.height);
        assert(dempty == Ok::<(Seq<BandV>, Seq<u8>), ParseError>((Seq::empty(), cur@)));
        assert(bands@.map_values(|b: RasterBand| b@) + Seq::<BandV>::empty() =~= bands@.map_values(
            |b: RasterBand| b@,
        ));
    }
    let raster = Raster {
        endian: e,
        version: hd.version,
        scale_x: hd.scale_x,
        scale_y: hd.scale_y,
        ip_x: hd.ip_x,
        ip_y: hd.ip_y,
        skew_x: hd.skew_x,
        skew_y: hd.skew_y,
        srid: hd.srid,
        width: hd.width,
        height: hd.height,
        bands,
    };
    Ok(raster)
}

impl Raster {
    /// Reads a whole stream: the literal leading character pair selects
    /// the endianness (`00` big, `01` little); then the header, then
    /// exactly as many bands as the header announced.
    pub fn from_wkb_string(string_bytes: &[u8]) -> (r: Result<Raster, ParseError>)
        ensures
            ({
                let d = dec_raster(string_bytes@);
                match d {
                    Ok(rv) => r matches Ok(x) && x@ == rv && x.wf(),
                    Err(er) => r matches Err(y) && y == er,
                }
            }),
    {
        if string_bytes.len() < 2 {
            return Err(ParseError::WrongInputSize { expected_len: 2, got: string_bytes.len() });
        }
        let c0 = string_bytes[0];
        let c1 = string_bytes[1];
        let rest = slice_subrange(string_bytes, 2, string_bytes.len());
        if c0 == 48 && c1 == 48 {
            parse_raster_body(rest, Endian::Big)
        } else if c0 == 48 && c1 == 49 {
            parse_raster_body(rest, Endian::Little)
        } else {
            Err(ParseError::NoEndiannessGiven(c0, c1))
        }
    }
}

} // verus!
