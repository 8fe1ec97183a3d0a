//! The executable encoder: writes a raster as the hex stream that
//! `format::wkb_v` describes, field for field.  Encoding is total; the
//! round-trip law asks for a well-formed raster, but any value encodes.

use vstd::prelude::*;
use crate::format::{
    band_hex, bands_hex, config_byte, grid_hex, header_fields_hex, lemma_bands_hex_push,
    lemma_grid_hex_push, lemma_row_hex_push, lemma_wkb_all_hex, nodata_hex, payload_hex, row_hex,
    wkb_v,
};
use crate::pixel::{grid_bits, PixelScalar};
use crate::scalar::{bits_of_i32, bits_of_i8, write_scalar_be, write_scalar_le};
use crate::types::{Endian, InMemoryRasterData, PixType, Raster, RasterBand, RasterDataSource};
use crate::wire::{
    all_hex, hex_bytes, hex_pair, lemma_hex_bytes_push, lemma_num_hex_single, num_hex,
};

verus! {

/// The characters of an ASCII byte run, one character per byte.
pub open spec fn chars_of_bytes(s: Seq<u8>) -> Seq<char> {
    Seq::new(s.len(), |i: int| s[i] as char)
}

/// Appends one number field in the stream's byte order.
fn write_bits(s: &mut Vec<u8>, v: u64, bw: usize, e: Endian)
    requires
        bw <= 8,
    ensures
        final(s)@ == old(s)@ + num_hex(e, v as nat, bw as nat),
{
    match e {
        Endian::Big => write_scalar_be(s, v, bw),
        Endian::Little => write_scalar_le(s, v, bw),
    }
}

/// Appends one hex-encoded byte.
fn write_byte(s: &mut Vec<u8>, v: u8, e: Endian)
    ensures
        final(s)@ == old(s)@ + hex_pair(v),
{
    write_bits(s, v as u64, 1, e);
    proof {
        lemma_num_hex_single(e, v);
    }
}

/// Appends the nodata field: the sentinel in the pixel type's width when
/// present, else one placeholder byte of value 0.
fn write_nodata(s: &mut Vec<u8>, pt: &PixType, e: Endian)
    ensures
        final(s)@ == old(s)@ + nodata_hex(e, *pt),
{
    match *pt {
        PixType::Bool1Bit(Some(v)) => write_bits(s, v.to_bits(), 1, e),
        PixType::UInt2(Some(v)) => write_bits(s, v.to_bits(), 1, e),
        PixType::UInt4(Some(v)) => write_bits(s, v.to_bits(), 1, e),
        PixType::Int8(Some(v)) => write_bits(s, v.to_bits(), 1, e),
        PixType::UInt8(Some(v)) => write_bits(s, v.to_bits(), 1, e),
        PixType::Int16(Some(v)) => write_bits(s, v.to_bits(), 2, e),
        PixType::UInt16(Some(v)) => write_bits(s, v.to_bits(), 2, e),
        PixType::Int32(Some(v)) => write_bits(s, v.to_bits(), 4, e),
        PixType::UInt32(Some(v)) => write_bits(s, v.to_bits(), 4, e),
        PixType::Float32(Some(v)) => write_bits(s, v.to_bits(), 4, e),
        PixType::Float64(Some(v)) => write_bits(s, v.to_bits(), 8, e),
        _ => write_byte(s, 0, e),
    }
}

/// Appends the hex encoding of each path byte in order.
fn write_path(s: &mut Vec<u8>, path: &Vec<u8>, e: Endian)
    ensures
        final(s)@ == old(s)@ + hex_bytes(path@),
{
    proof {
        assert(path@.subrange(0, 0) =~= Seq::<u8>::empty());
        assert(hex_bytes(Seq::<u8>::empty()) == Seq::<u8>::empty());
        assert(s@ =~= s@ + hex_bytes(path@.subrange(0, 0)));
    }
    let mut i: usize = 0;
    while i < path.len()
        invariant
            i <= path.len(),
            s@ == old(s)@ + hex_bytes(path@.subrange(0, i as int)),
        decreases path.len() - i,
    {
        let ghost pre = path@.subrange(0, i as int);
        write_byte(s, path[i], e);
        proof {
            assert(path@.subrange(0, (i + 1) as int) =~= pre.push(path@[i as int]));
            lemma_hex_bytes_push(pre, path@[i as int]);
            assert(s@ =~= old(s)@ + hex_bytes(path@.subrange(0, (i + 1) as int)));
        }
        i = i + 1;
    }
    proof {
        assert(path@.subrange(0, path.len() as int) =~= path@);
    }
}

/// Appends a whole grid, row-major, each cell in the pixel type's width.
fn write_grid<T: PixelScalar>(s: &mut Vec<u8>, data: &Vec<Vec<T>>, bw: usize, e: Endian)
    requires
        bw as nat == T::byte_width(),
        bw <= 8,
    ensures
        final(s)@ == old(s)@ + grid_hex(e, grid_bits(data@), bw as nat),
{
    let ghost gb = grid_bits(data@);
    proof {
        assert(gb.subrange(0, 0) =~= Seq::<Seq<u64>>::empty());
        assert(grid_hex(e, Seq::<Seq<u64>>::empty(), bw as nat) == Seq::<u8>::empty());
        assert(s@ =~= s@ + grid_hex(e, gb.subrange(0, 0), bw as nat));
    }
    let mut i: usize = 0;
    while i < data.len()
        invariant
            i <= data.len(),
            bw as nat == T::byte_width(),
            bw <= 8,
            gb == grid_bits(data@),
            s@ == old(s)@ + grid_hex(e, gb.subrange(0, i as int), bw as nat),
        decreases data.len() - i,
    {
        let ghost pre = gb.subrange(0, i as int);
        let row = &data[i];
        let ghost rowbits = row@.map_values(|c: T| c.as_bits());
        proof {
            assert(rowbits.subrange(0, 0) =~= Seq::<u64>::empty());
            assert(row_hex(e, Seq::<u64>::empty(), bw as nat) == Seq::<u8>::empty());
            assert(s@ + row_hex(e, rowbits.subrange(0, 0), bw as nat) =~= s@);
        }
        let mut j: usize = 0;
        while j < row.len()
            invariant
                j <= row.len(),
                bw as nat == T::byte_width(),
                bw <= 8,
                rowbits == row@.map_values(|c: T| c.as_bits()),
                s@ == old(s)@ + grid_hex(e, pre, bw as nat) + row_hex(
                    e,
                    rowbits.subrange(0, j as int),
                    bw as nat,
                ),
            decreases row.len() - j,
        {
            let c = row[j];
            write_bits(s, c.to_bits(), bw, e);
            proof {
                assert(rowbits[j as int] == c.as_bits());
                assert(rowbits.subrange(0, (j + 1) as int) =~= rowbits.subrange(0, j as int).push(
                    c.as_bits(),
                ));
                lemma_row_hex_push(e, rowbits.subrange(0, j as int), c.as_bits(), bw as nat);
                assert(s@ =~= old(s)@ + grid_hex(e, pre, bw as nat) + row_hex(
                    e,
                    rowbits.subrange(0, (j + 1) as int),
                    bw as nat,
                ));
            }
            j = j + 1;
        }
        proof {
            assert(rowbits.subrange(0, row.len() as int) =~= rowbits);
            assert(gb[i as int] == rowbits);
            assert(gb.subrange(0, (i + 1) as int) =~= pre.push(rowbits));
            lemma_grid_hex_push(e, pre, rowbits, bw as nat);
            assert(s@ =~= old(s)@ + grid_hex(e, gb.subrange(0, (i + 1) as int), bw as nat));
        }
        i = i + 1;
    }
    proof {
        assert(gb.subrange(0, data.len() as int) =~= gb);
    }
}

/// Appends an in-memory grid payload, dispatching on the pixel type.
#[verifier::rlimit(60)]
fn write_memory_payload(s: &mut Vec<u8>, m: &InMemoryRasterData, e: Endian)
    ensures
        final(s)@ == old(s)@ + grid_hex(e, m.spec_grid(), m.spec_pixtype().byte_width()),
{
    match m {
        InMemoryRasterData::Bool1Bit { data, .. } => {
            write_grid::<bool>(s, data, 1, e);
            proof {
                assert(m.spec_grid() == grid_bits(data@));
            }
        },
        InMemoryRasterData::UInt2 { data, .. } => {
            write_grid::<u8>(s, data, 1, e);
            proof {
                assert(m.spec_grid() == grid_bits(data@));
            }
        },
        InMemoryRasterData::UInt4 { data, .. } => {
            write_grid::<u8>(s, data, 1, e);
            proof {
                assert(m.spec_grid() == grid_bits(data@));
            }
        },
        InMemoryRasterData::Int8 { data, .. } => {
            write_grid::<i8>(s, data, 1, e);
            proof {
                assert(m.spec_grid() == grid_bits(data@));
            }
        },
        InMemoryRasterData::UInt8 { data, .. } => {
            write_grid::<u8>(s, data, 1, e);
            proof {
                assert(m.spec_grid() == grid_bits(data@));
            }
        },
        InMemoryRasterData::Int16 { data, .. } => {
            write_grid::<i16>(s, data, 2, e);
            proof {
                assert(m.spec_grid() == grid_bits(data@));
            }
        },
        InMemoryRasterData::UInt16 { data, .. } => {
            write_grid::<u16>(s, data, 2, e);
            proof {
                assert(m.spec_grid() == grid_bits(data@));
            }
        },
        InMemoryRasterData::Int32 { data, .. } => {
            write_grid::<i32>(s, data, 4, e);
            proof {
                assert(m.spec_grid() == grid_bits(data@));
            }
        },
        InMemoryRasterData::UInt32 { data, .. } => {
            write_grid::<u32>(s, data, 4, e);
            proof {
                assert(m.spec_grid() == grid_bits(data@));
            }
        },
        InMemoryRasterData::Float32 { data, .. } => {
            write_grid::<u32>(s, data, 4, e);
            proof {
                assert(m.spec_grid() == grid_bits(data@));
            }
        },
        InMemoryRasterData::Float64 { data, .. } => {
            write_grid::<u64>(s, data, 8, e);
            proof {
                assert(m.spec_grid() == grid_bits(data@));
            }
        },
    }
}

/// Appends a band's payload: the offline reference or the grid.
#[verifier::rlimit(60)]
fn write_payload(s: &mut Vec<u8>, data: &RasterDataSource, e: Endian)
    ensures
        final(s)@ == old(s)@ + payload_hex(e, data@),
{
    match data {
        RasterDataSource::Offline(o) => {
            write_byte(s, bits_of_i8(o.band), e);
            write_path(s, &o.path, e);
            write_byte(s, 0, e);
            proof {
                assert(s@ =~= old(s)@ + payload_hex(e, data@));
            }
        },
        RasterDataSource::InMemory(m) => {
            write_memory_payload(s, m, e);
        },
    }
}

/// Appends one band: configuration byte, nodata field, payload.
#[verifier::rlimit(60)]
fn write_band(s: &mut Vec<u8>, band: &RasterBand, e: Endian)
    ensures
        final(s)@ == old(s)@ + band_hex(e, band@),
{
    let pt = band.data.get_pixtype();
    let off = band.data.is_offline();
    let has = pt.has_nodata_value();
    let code = pt.get_type();
    proof {
        assert(code <= 11);
    }
    let cfg = (if off {
        128u8
    } else {
        0u8
    }) + (if has {
        64u8
    } else {
        0u8
    }) + (if band.is_nodata_value {
        32u8
    } else {
        0u8
    }) + code;
    proof {
        assert(cfg == config_byte(band@));
    }
    write_byte(s, cfg, e);
    write_nodata(s, &pt, e);
    let ghost mid = s@;
    write_payload(s, &band.data, e);
    proof {
        assert(s@ == mid + payload_hex(e, band@.data));
        assert(s@ =~= old(s)@ + band_hex(e, band@));
    }
}

impl Raster {
    /// Encodes the raster as the bytes of its hex stream: the endianness
    /// marker, the 61-byte header, then each band in order.
    #[verifier::rlimit(60)]
    pub fn to_wkb_bytes(&self) -> (out: Vec<u8>)
        ensures
            out@ == wkb_v(self@),
            all_hex(out@),
    {
        let e = self.endian;
        let mut out: Vec<u8> = Vec::new();
        let m = match e {
            Endian::Big => 0u8,
            Endian::Little => 1u8,
        };
        write_byte(&mut out, m, e);
        write_bits(&mut out, self.version as u64, 2, e);
        write_bits(&mut out, self.bands.len() as u64, 2, e);
        write_bits(&mut out, self.scale_x, 8, e);
        write_bits(&mut out, self.scale_y, 8, e);
        write_bits(&mut out, self.ip_x, 8, e);
        write_bits(&mut out, self.ip_y, 8, e);
        write_bits(&mut out, self.skew_x, 8, e);
        write_bits(&mut out, self.skew_y, 8, e);
        write_bits(&mut out, bits_of_i32(self.srid) as u64, 4, e);
        write_bits(&mut out, self.width as u64, 2, e);
        write_bits(&mut out, self.height as u64, 2, e);
        proof {
            assert(self@.bands.len() == self.bands@.len());
            assert(out@ =~= hex_pair(m) + header_fields_hex(self@));
            assert(self@.bands.subrange(0, 0) =~= Seq::<crate::types::BandV>::empty());
            assert(out@ + bands_hex(e, self@.bands.subrange(0, 0)) =~= out@);
        }
        let ghost header_part = out@;
        let mut i: usize = 0;
        while i < self.bands.len()
            invariant
                i <= self.bands.len(),
                self@.bands.len() == self.bands@.len(),
                out@ == header_part + bands_hex(e, self@.bands.subrange(0, i as int)),
            decreases self.bands.len() - i,
        {
            let ghost pre = self@.bands.subrange(0, i as int);
            write_band(&mut out, &self.bands[i], e);
            proof {
                assert(self.bands@[i as int]@ == self@.bands[i as int]);
                assert(self@.bands.subrange(0, (i + 1) as int) =~= pre.push(
                    self@.bands[i as int],
                ));
                lemma_bands_hex_push(e, pre, self@.bands[i as int]);
                assert(out@ =~= header_part + bands_hex(
                    e,
                    self@.bands.subrange(0, (i + 1) as int),
                ));
            }
            i = i + 1;
        }
        proof {
            assert(self@.bands.subrange(0, self.bands.len() as int) =~= self@.bands);
            assert(out@ =~= wkb_v(self@));
            lemma_wkb_all_hex(self@);
        }
        out
    }

    /// Encodes the raster as a hex string, ready for use inside a SQL
    /// statement.
    pub fn to_wkb_string(self) -> (r: String)
        ensures
            r@ == chars_of_bytes(wkb_v(self@)),
    {
        let bytes = self.to_wkb_bytes();
        proof {
            assert(forall|i: int| 0 <= i < bytes@.len() ==> bytes@[i] < 128);
        }
        ascii_bytes_to_string(bytes)
    }
}

/// Relies on `String::from_utf8`: a run of ASCII bytes becomes the string
/// of exactly those characters, one character per byte.
#[verifier::external_body]
fn ascii_bytes_to_string(bytes: Vec<u8>) -> (r: String)
    requires
        forall|i: int| 0 <= i < bytes@.len() ==> bytes@[i] < 128,
    ensures
        r@ == chars_of_bytes(bytes@),
{
    String::from_utf8(bytes).unwrap_or_default()
}

} // verus!
