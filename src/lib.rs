//! Read-only virtual file types for a game client's on-disk asset cache.
//!
//! A cache is a data file of 520-byte sectors plus one locator file per index.
//! [`Index`] parses a locator file, [`Dat2`] follows an archive's sector chain,
//! [`Buffer`] decodes the archive frame (XTEA, bzip2, gzip or LZMA, trailing
//! version) and [`IndexMetadata`] parses the reference table's descriptors.
//! [`Indices`] puts the indices of a cache together.
pub mod archive;
pub mod codec;
pub mod dat2;
pub mod error;
pub mod index;
pub mod metadata;
pub mod parse;
pub mod sector;
pub mod xtea;

pub use archive::{ArchiveMetadata, ArchiveRef, ARCHIVE_REF_LEN};
pub use codec::{Buffer, Compression, Decoded, Encoded};
pub use dat2::Dat2;
pub use index::{Index, Indices, REFERENCE_TABLE_ID};
pub use metadata::IndexMetadata;
pub use error::{CacheError, CompressionUnsupported, ParseError, ReadError};
pub use sector::{Sector, SectorHeader, SectorHeaderSize};
