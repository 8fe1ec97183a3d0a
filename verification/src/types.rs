//! Data model of the codec: endianness tag, pixel types, raster bands and
//! the raster itself, together with the spec-level view (`RasterV` and
//! friends) that the contracts speak of, and the well-formedness
//! predicates.
//!
//! Floating-point pixel types and the georeference doubles are carried as
//! their IEEE-754 bit patterns (`u32`/`u64`): the codec only ever moves
//! them byte for byte, so the bit pattern is the whole story.

use vstd::prelude::*;
use vstd::utf8::valid_utf8;
use crate::pixel::{grid_bits, PixelScalar};
use crate::wire::pow256;

verus! {

/// Endianness of the stream: the leading marker byte is 0 for big endian
/// and 1 for little endian.
#[derive(Debug, Copy, Clone, PartialEq, Eq, Hash, Structural)]
pub enum Endian {
    Big,
    Little,
}

impl Endian {
    /// Raw value of the marker byte at the start of the stream.
    pub open spec fn marker(self) -> u8 {
        match self {
            Endian::Big => 0,
            Endian::Little => 1,
        }
    }
}

/// Two hex characters decoded to a byte that is neither 0 nor 1 where a
/// boolean was expected: the two characters, then the decoded byte.
#[derive(Debug, Copy, Clone, PartialEq, Eq, Hash)]
pub struct BoolParseError(pub u8, pub u8, pub u8);

/// A decode failure.  Decoding is all-or-nothing: any failure aborts the
/// whole stream.
#[derive(Debug, Copy, Clone, PartialEq, Eq, Hash)]
pub enum ParseError {
    /// A decode step needed more hex characters than remained:
    /// `expected_len` is the count the step needed, `got` the count left.
    WrongInputSize { expected_len: usize, got: usize },
    /// A boolean field held a byte other than 0 or 1.
    UnableToParseBool(BoolParseError),
    /// The leading character pair was neither `00` nor `01`; carries the
    /// two characters found.
    NoEndiannessGiven(u8, u8),
    /// A band header carried a pixel-type nibble outside the valid set;
    /// carries the offending nibble.
    InvalidPixelType(u8),
    /// The path bytes of an offline band were not valid UTF-8.
    PathContainsNonUTF8Chars,
}

/// Pixel type of a band, paired with its optional nodata sentinel.  The
/// three sub-byte types (1-bit boolean, 2-bit and 4-bit unsigned) are
/// still stored as one full byte per pixel on the wire.  `Float32` and
/// `Float64` carry IEEE-754 bit patterns.
#[derive(Debug, Copy, Clone, PartialEq, Eq, Hash)]
pub enum PixType {
    Bool1Bit(Option<bool>),
    UInt2(Option<u8>),
    UInt4(Option<u8>),
    Int8(Option<i8>),
    UInt8(Option<u8>),
    Int16(Option<i16>),
    UInt16(Option<u16>),
    Int32(Option<i32>),
    UInt32(Option<u32>),
    Float32(Option<u32>),
    Float64(Option<u64>),
}

impl PixType {
    /// The four-bit code of this pixel type in the band header; 9 is
    /// unused, so the valid codes are 0 through 8, 10 and 11.
    pub open spec fn code(self) -> u8 {
        match self {
            PixType::Bool1Bit(_) => 0,
            PixType::UInt2(_) => 1,
            PixType::UInt4(_) => 2,
            PixType::Int8(_) => 3,
            PixType::UInt8(_) => 4,
            PixType::Int16(_) => 5,
            PixType::UInt16(_) => 6,
            PixType::Int32(_) => 7,
            PixType::UInt32(_) => 8,
            PixType::Float32(_) => 10,
            PixType::Float64(_) => 11,
        }
    }

    /// Bytes one pixel of this type takes on the wire; the sub-byte types
    /// still take one full byte.
    pub open spec fn byte_width(self) -> nat {
        match self {
            PixType::Bool1Bit(_) => 1,
            PixType::UInt2(_) => 1,
            PixType::UInt4(_) => 1,
            PixType::Int8(_) => 1,
            PixType::UInt8(_) => 1,
            PixType::Int16(_) => 2,
            PixType::UInt16(_) => 2,
            PixType::Int32(_) => 4,
            PixType::UInt32(_) => 4,
            PixType::Float32(_) => 4,
            PixType::Float64(_) => 8,
        }
    }

    /// The nodata sentinel as the wire bit pattern of its value, if one
    /// is present.
    pub open spec fn nodata_bits(self) -> Option<u64> {
        match self {
            PixType::Bool1Bit(Some(v)) => Some(v.as_bits()),
            PixType::UInt2(Some(v)) => Some(v.as_bits()),
            PixType::UInt4(Some(v)) => Some(v.as_bits()),
            PixType::Int8(Some(v)) => Some(v.as_bits()),
            PixType::UInt8(Some(v)) => Some(v.as_bits()),
            PixType::Int16(Some(v)) => Some(v.as_bits()),
            PixType::UInt16(Some(v)) => Some(v.as_bits()),
            PixType::Int32(Some(v)) => Some(v.as_bits()),
            PixType::UInt32(Some(v)) => Some(v.as_bits()),
            PixType::Float32(Some(v)) => Some(v.as_bits()),
            PixType::Float64(Some(v)) => Some(v.as_bits()),
            _ => None,
        }
    }

    /// True of the bit patterns a cell of this pixel type can carry: any
    /// value of the right width, except that a boolean cell holds only 0
    /// or 1.
    pub open spec fn cell_ok(self, v: u64) -> bool {
        match self {
            PixType::Bool1Bit(_) => v <= 1,
            _ => v < pow256(self.byte_width()),
        }
    }

    /// True when a code names a pixel type: 0 through 8, 10 or 11.
    pub open spec fn valid_code(code: u8) -> bool {
        code <= 8 || code == 10 || code == 11
    }

    /// Bytes one pixel of the coded type takes on the wire.
    pub open spec fn code_width(code: u8) -> nat
        recommends
            PixType::valid_code(code),
    {
        if code <= 4 {
            1
        } else if code <= 6 {
            2
        } else if code == 11 {
            8
        } else {
            4
        }
    }

    /// The pixel type named by a code, with a nodata sentinel recovered
    /// from its wire bit pattern.
    pub open spec fn of_code(code: u8, nodata: Option<u64>) -> PixType
        recommends
            PixType::valid_code(code),
    {
        match code {
            0 => PixType::Bool1Bit(
                match nodata {
                    Some(v) => Some(v == 1),
                    None => None,
                },
            ),
            1 => PixType::UInt2(
                match nodata {
                    Some(v) => Some(v as u8),
                    None => None,
                },
            ),
            2 => PixType::UInt4(
                match nodata {
                    Some(v) => Some(v as u8),
                    None => None,
                },
            ),
            3 => PixType::Int8(
                match nodata {
                    Some(v) => Some(crate::wire::i8_of_u8(v as u8)),
                    None => None,
                },
            ),
            4 => PixType::UInt8(
                match nodata {
                    Some(v) => Some(v as u8),
                    None => None,
                },
            ),
            5 => PixType::Int16(
                match nodata {
                    Some(v) => Some(crate::wire::i16_of_u16(v as u16)),
                    None => None,
                },
            ),
            6 => PixType::UInt16(
                match nodata {
                    Some(v) => Some(v as u16),
                    None => None,
                },
            ),
            7 => PixType::Int32(
                match nodata {
                    Some(v) => Some(crate::wire::i32_of_u32(v as u32)),
                    None => None,
                },
            ),
            8 => PixType::UInt32(
                match nodata {
                    Some(v) => Some(v as u32),
                    None => None,
                },
            ),
            10 => PixType::Float32(
                match nodata {
                    Some(v) => Some(v as u32),
                    None => None,
                },
            ),
            _ => PixType::Float64(nodata),
        }
    }

    /// Whether a real nodata sentinel is present; this, not the
    /// sentinel's value, drives the band header bit.
    pub fn has_nodata_value(&self) -> (r: bool)
        ensures
            r == (self.nodata_bits() is Some),
    {
        match self {
            PixType::Bool1Bit(Some(_)) => true,
            PixType::UInt2(Some(_)) => true,
            PixType::UInt4(Some(_)) => true,
            PixType::Int8(Some(_)) => true,
            PixType::UInt8(Some(_)) => true,
            PixType::Int16(Some(_)) => true,
            PixType::UInt16(Some(_)) => true,
            PixType::Int32(Some(_)) => true,
            PixType::UInt32(Some(_)) => true,
            PixType::Float32(Some(_)) => true,
            PixType::Float64(Some(_)) => true,
            _ => false,
        }
    }

    /// Bytes one pixel of this type takes on the wire, as executable
    /// code.
    pub(crate) fn width_bytes(&self) -> (w: usize)
        ensures
            w as nat == self.byte_width(),
            1 <= w <= 8,
    {
        match self {
            PixType::Bool1Bit(_) => 1,
            PixType::UInt2(_) => 1,
            PixType::UInt4(_) => 1,
            PixType::Int8(_) => 1,
            PixType::UInt8(_) => 1,
            PixType::Int16(_) => 2,
            PixType::UInt16(_) => 2,
            PixType::Int32(_) => 4,
            PixType::UInt32(_) => 4,
            PixType::Float32(_) => 4,
            PixType::Float64(_) => 8,
        }
    }

    /// The four-bit code of this pixel type, as executable code.
    pub(crate) fn get_type(&self) -> (r: u8)
        ensures
            r == self.code(),
    {
        match self {
            PixType::Bool1Bit(_) => 0,
            PixType::UInt2(_) => 1,
            PixType::UInt4(_) => 2,
            PixType::Int8(_) => 3,
            PixType::UInt8(_) => 4,
            PixType::Int16(_) => 5,
            PixType::UInt16(_) => 6,
            PixType::Int32(_) => 7,
            PixType::UInt32(_) => 8,
            PixType::Float32(_) => 10,
            PixType::Float64(_) => 11,
        }
    }
}

/// In-memory pixel data: one variant per pixel type, each a row-major
/// `height x width` grid plus the optional nodata sentinel.
#[derive(Debug, Clone, PartialEq)]
pub enum InMemoryRasterData {
    Bool1Bit { data: Vec<Vec<bool>>, nodata: Option<bool> },
    UInt2 { data: Vec<Vec<u8>>, nodata: Option<u8> },
    UInt4 { data: Vec<Vec<u8>>, nodata: Option<u8> },
    Int8 { data: Vec<Vec<i8>>, nodata: Option<i8> },
    UInt8 { data: Vec<Vec<u8>>, nodata: Option<u8> },
    Int16 { data: Vec<Vec<i16>>, nodata: Option<i16> },
    UInt16 { data: Vec<Vec<u16>>, nodata: Option<u16> },
    Int32 { data: Vec<Vec<i32>>, nodata: Option<i32> },
    UInt32 { data: Vec<Vec<u32>>, nodata: Option<u32> },
    Float32 { data: Vec<Vec<u32>>, nodata: Option<u32> },
    Float64 { data: Vec<Vec<u64>>, nodata: Option<u64> },
}

impl InMemoryRasterData {
    /// The pixel type this data carries, nodata sentinel included.
    pub open spec fn spec_pixtype(self) -> PixType {
        match self {
            InMemoryRasterData::Bool1Bit { nodata, .. } => PixType::Bool1Bit(nodata),
            InMemoryRasterData::UInt2 { nodata, .. } => PixType::UInt2(nodata),
            InMemoryRasterData::UInt4 { nodata, .. } => PixType::UInt4(nodata),
            InMemoryRasterData::Int8 { nodata, .. } => PixType::Int8(nodata),
            InMemoryRasterData::UInt8 { nodata, .. } => PixType::UInt8(nodata),
            InMemoryRasterData::Int16 { nodata, .. } => PixType::Int16(nodata),
            InMemoryRasterData::UInt16 { nodata, .. } => PixType::UInt16(nodata),
            InMemoryRasterData::Int32 { nodata, .. } => PixType::Int32(nodata),
            InMemoryRasterData::UInt32 { nodata, .. } => PixType::UInt32(nodata),
            InMemoryRasterData::Float32 { nodata, .. } => PixType::Float32(nodata),
            InMemoryRasterData::Float64 { nodata, .. } => PixType::Float64(nodata),
        }
    }

    /// The grid as `u64` wire bit patterns, row by row.
    pub open spec fn spec_grid(self) -> Seq<Seq<u64>> {
        match self {
            InMemoryRasterData::Bool1Bit { data, .. } => grid_bits(data@),
            InMemoryRasterData::UInt2 { data, .. } => grid_bits(data@),
            InMemoryRasterData::UInt4 { data, .. } => grid_bits(data@),
            InMemoryRasterData::Int8 { data, .. } => grid_bits(data@),
            InMemoryRasterData::UInt8 { data, .. } => grid_bits(data@),
            InMemoryRasterData::Int16 { data, .. } => grid_bits(data@),
            InMemoryRasterData::UInt16 { data, .. } => grid_bits(data@),
            InMemoryRasterData::Int32 { data, .. } => grid_bits(data@),
            InMemoryRasterData::UInt32 { data, .. } => grid_bits(data@),
            InMemoryRasterData::Float32 { data, .. } => grid_bits(data@),
            InMemoryRasterData::Float64 { data, .. } => grid_bits(data@),
        }
    }

    /// The pixel type this data carries, as executable code.
    pub fn get_pixtype(&self) -> (r: PixType)
        ensures
            r == self.spec_pixtype(),
    {
        match self {
            InMemoryRasterData::Bool1Bit { nodata, .. } => PixType::Bool1Bit(*nodata),
            InMemoryRasterData::UInt2 { nodata, .. } => PixType::UInt2(*nodata),
            InMemoryRasterData::UInt4 { nodata, .. } => PixType::UInt4(*nodata),
            InMemoryRasterData::Int8 { nodata, .. } => PixType::Int8(*nodata),
            InMemoryRasterData::UInt8 { nodata, .. } => PixType::UInt8(*nodata),
            InMemoryRasterData::Int16 { nodata, .. } => PixType::Int16(*nodata),
            InMemoryRasterData::UInt16 { nodata, .. } => PixType::UInt16(*nodata),
            InMemoryRasterData::Int32 { nodata, .. } => PixType::Int32(*nodata),
            InMemoryRasterData::UInt32 { nodata, .. } => PixType::UInt32(*nodata),
            InMemoryRasterData::Float32 { nodata, .. } => PixType::Float32(*nodata),
            InMemoryRasterData::Float64 { nodata, .. } => PixType::Float64(*nodata),
        }
    }
}

/// An offline band: the pixel data lives in an external file, referenced
/// by a 0-based band index and a path, carried here as its UTF-8 bytes.
#[derive(Debug, Clone, PartialEq)]
pub struct OfflineRasterData {
    /// 0-based band number within the external file.
    pub band: i8,
    /// Path to the data file, as UTF-8 bytes without a NUL.
    pub path: Vec<u8>,
    /// Pixel type of the referenced band.
    pub pixtype: PixType,
}

/// Where a band's pixels live: in an external file or in memory.
#[derive(Debug, Clone, PartialEq)]
pub enum RasterDataSource {
    /// Pixel values stored in an external file.
    Offline(OfflineRasterData),
    /// Pixel values stored inline, row major: the first pixel is the
    /// upper-left corner, the last of the first row the upper-right.
    InMemory(InMemoryRasterData),
}

/// Spec-level view of a band's data source.
pub enum SourceV {
    Offline { band: i8, path: Seq<u8>, pixtype: PixType },
    InMemory { pixtype: PixType, grid: Seq<Seq<u64>> },
}

impl SourceV {
    /// The pixel type of either variant.
    pub open spec fn pixtype(self) -> PixType {
        match self {
            SourceV::Offline { pixtype, .. } => pixtype,
            SourceV::InMemory { pixtype, .. } => pixtype,
        }
    }

    /// Well-formedness against the raster's dimensions: an in-memory
    /// grid has exactly `height` rows of exactly `width` cells, each
    /// cell fitting the pixel type's byte width; an offline path is
    /// NUL-free UTF-8.
    pub open spec fn wf(self, width: u16, height: u16) -> bool {
        match self {
            SourceV::Offline { path, .. } => {
                &&& valid_utf8(path)
                &&& forall|i: int| 0 <= i < path.len() ==> path[i] != 0
            },
            SourceV::InMemory { pixtype, grid } => wf_grid(grid, width, height, pixtype),
        }
    }
}

/// A `height x width` grid of wire bit patterns, each one a pattern the
/// pixel type can carry.
pub open spec fn wf_grid(grid: Seq<Seq<u64>>, width: u16, height: u16, pt: PixType) -> bool {
    &&& grid.len() == height
    &&& (forall|i: int| 0 <= i < grid.len() ==> (#[trigger] grid[i]).len() == width)
    &&& (forall|i: int, j: int|
        0 <= i < grid.len() && 0 <= j < grid[i].len() ==> pt.cell_ok(#[trigger] grid[i][j]))
}

impl View for RasterDataSource {
    type V = SourceV;

    open spec fn view(&self) -> SourceV {
        match self {
            RasterDataSource::Offline(o) => SourceV::Offline {
                band: o.band,
                path: o.path@,
                pixtype: o.pixtype,
            },
            RasterDataSource::InMemory(m) => SourceV::InMemory {
                pixtype: m.spec_pixtype(),
                grid: m.spec_grid(),
            },
        }
    }
}

impl RasterDataSource {
    /// True when the band's data lives in an external file.
    pub fn is_offline(&self) -> (r: bool)
        ensures
            r == (self@ is Offline),
    {
        match self {
            RasterDataSource::Offline(_) => true,
            RasterDataSource::InMemory(_) => false,
        }
    }

    /// The pixel type of either variant.
    pub fn get_pixtype(&self) -> (r: PixType)
        ensures
            r == self@.pixtype(),
    {
        match self {
            RasterDataSource::Offline(o) => o.pixtype,
            RasterDataSource::InMemory(m) => m.get_pixtype(),
        }
    }
}

/// One band of raster data.
#[derive(Debug, Clone, PartialEq)]
pub struct RasterBand {
    /// Dirty flag: all values of the band are expected to be nodata
    /// values.  Carried as given; the codec does not interpret it.
    pub is_nodata_value: bool,
    /// The band's pixel data.
    pub data: RasterDataSource,
}

/// Spec-level view of one band.
pub struct BandV {
    pub is_nodata_value: bool,
    pub data: SourceV,
}

impl View for RasterBand {
    type V = BandV;

    open spec fn view(&self) -> BandV {
        BandV { is_nodata_value: self.is_nodata_value, data: self.data@ }
    }
}

/// A raster: georeference header fields and a list of bands.  The six
/// georeference doubles are carried as IEEE-754 bit patterns.
#[derive(Debug, Clone, PartialEq)]
pub struct Raster {
    /// Endianness of the encoded stream.
    pub endian: Endian,
    /// Format version; 0 for this layout.
    pub version: u16,
    /// Pixel width in geographical units (bits of an `f64`).
    pub scale_x: u64,
    /// Pixel height in geographical units (bits of an `f64`).
    pub scale_y: u64,
    /// X ordinate of the upper-left corner (bits of an `f64`).
    pub ip_x: u64,
    /// Y ordinate of the upper-left corner (bits of an `f64`).
    pub ip_y: u64,
    /// Rotation about the Y axis (bits of an `f64`).
    pub skew_x: u64,
    /// Rotation about the X axis (bits of an `f64`).
    pub skew_y: u64,
    /// Spatial reference identifier.
    pub srid: i32,
    /// Number of pixel columns.
    pub width: u16,
    /// Number of pixel rows.
    pub height: u16,
    /// The bands, in stream order.
    pub bands: Vec<RasterBand>,
}

/// Spec-level view of a raster.
pub struct RasterV {
    pub endian: Endian,
    pub version: u16,
    pub scale_x: u64,
    pub scale_y: u64,
    pub ip_x: u64,
    pub ip_y: u64,
    pub skew_x: u64,
    pub skew_y: u64,
    pub srid: i32,
    pub width: u16,
    pub height: u16,
    pub bands: Seq<BandV>,
}

impl View for Raster {
    type V = RasterV;

    open spec fn view(&self) -> RasterV {
        RasterV {
            endian: self.endian,
            version: self.version,
            scale_x: self.scale_x,
            scale_y: self.scale_y,
            ip_x: self.ip_x,
            ip_y: self.ip_y,
            skew_x: self.skew_x,
            skew_y: self.skew_y,
            srid: self.srid,
            width: self.width,
            height: self.height,
            bands: self.bands@.map_values(|b: RasterBand| b@),
        }
    }
}

impl RasterV {
    /// Well-formedness: at most 65535 bands, each well formed against the
    /// raster's dimensions.
    pub open spec fn wf(self) -> bool {
        &&& self.bands.len() <= 0xFFFF
        &&& (forall|i: int|
            0 <= i < self.bands.len() ==> (#[trigger] self.bands[i]).data.wf(
                self.width,
                self.height,
            ))
    }
}

impl Raster {
    /// Well-formedness of the in-memory value; encoding asks for this.
    pub open spec fn wf(self) -> bool {
        self@.wf()
    }
}

} // verus!
