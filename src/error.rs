//! Error types of the cache reader.
use vstd::prelude::*;

verus! {

/// Failures met while reading an archive out of the data file.
#[derive(Clone, Copy, Debug, PartialEq, Eq, Structural)]
pub enum ReadError {
    /// A sector header names another archive: (found, expected).
    SectorArchiveMismatch(u32, u32),
    /// A sector header sits at another chain position: (found, expected).
    SectorChunkMismatch(usize, usize),
    /// A sector header names another index: (found, expected).
    SectorIndexMismatch(u8, u8),
    /// No locator for the archive in the index.
    ArchiveNotFound { idx: u8, arc: u32 },
}

/// Failures met while parsing bytes.
#[derive(Clone, Copy, Debug, PartialEq, Eq, Structural)]
pub enum ParseError {
    /// The sector chain that starts at this sector could not be parsed.
    Sector(usize),
    /// The locator record of this archive is malformed.
    Archive(u32),
    /// The input ended before the structure being read was complete.
    Truncated,
    /// A decompressor gave a payload of another length than the frame declared:
    /// (declared, produced).
    DecompressedLength(usize, usize),
    /// A length does not fit the 32 bits that a frame gives it.
    Oversized,
}

/// A compression tag that this library does not know.
#[derive(Clone, Copy, Debug, PartialEq, Eq, Structural)]
pub struct CompressionUnsupported(pub u8);

#[verifier::external_type_specification]
#[verifier::external_body]
pub struct ExIoError(std::io::Error);

#[verifier::external_type_specification]
#[verifier::external_body]
pub struct ExLzmaError(lzma_rs::error::Error);

/// Every failure of the library.
#[derive(Debug)]
pub enum CacheError {
    /// An I/O failure, also the one a bzip2 or gzip stream reports.
    Io(std::io::Error),
    /// A failure of the LZMA decoder.
    Lzma(lzma_rs::error::Error),
    Read(ReadError),
    Parse(ParseError),
    Compression(CompressionUnsupported),
}

} // verus!
