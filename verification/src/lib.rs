//! Codec between an in-memory geospatial raster description and the
//! hex-encoded Well-Known-Binary stream used for the PostGIS RASTER type.
//!
//! The stream is a sequence of ASCII hex digit pairs, one pair per raw byte:
//! a 61-byte header (endianness marker, version, band count, six
//! georeference doubles, SRID, width, height) followed by one band header
//! and one payload per band.  Every multi-byte field is laid out in the
//! endianness named by the leading marker byte.
//!
//! Floating-point fields (the georeference doubles and the two float pixel
//! types) are carried as their IEEE-754 bit patterns (`u64`/`u32`), since the
//! codec only ever moves them byte for byte.

pub mod big_endian;
pub mod little_endian;
pub mod pixel;
pub mod utf8check;
mod scalar;
mod decode;
pub mod encode;
pub mod format;
pub mod laws;
pub mod wire;
mod types;

pub use crate::pixel::PixelScalar;
pub use crate::types::BandV;
pub use crate::types::BoolParseError;
pub use crate::types::Endian;
pub use crate::types::InMemoryRasterData;
pub use crate::types::OfflineRasterData;
pub use crate::types::ParseError;
pub use crate::types::PixType;
pub use crate::types::Raster;
pub use crate::types::RasterBand;
pub use crate::types::RasterDataSource;
pub use crate::types::RasterV;
pub use crate::types::SourceV;
pub use crate::types::wf_grid;
pub use crate::decode::take_slice_1_byte;
pub use crate::decode::take_slice_2_bytes;
pub use crate::decode::take_slice_4_bytes;
pub use crate::decode::take_slice_8_bytes;
