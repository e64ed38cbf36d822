//! Sectors of the data file and their headers.
use vstd::prelude::*;

use crate::archive::ArchiveRef;
use crate::error::{CacheError, ParseError, ReadError};
use crate::parse::{be_u16_at, be_u24_at, be_u32_at, read_u16, read_u24, read_u32, read_u8};

verus! {

pub const SECTOR_HEADER_SIZE: usize = 8;

pub const SECTOR_EXPANDED_HEADER_SIZE: usize = 10;

pub const SECTOR_DATA_SIZE: usize = 512;

pub const SECTOR_EXPANDED_DATA_SIZE: usize = 510;

pub const SECTOR_SIZE: usize = 520;

/// The header layout of a sector: which one applies follows from the archive id.
#[derive(Clone, Copy, Debug, PartialEq, Eq, Structural)]
pub enum SectorHeaderSize {
    /// 8-byte header: a 16-bit archive id.
    Normal,
    /// 10-byte header: a 32-bit archive id.
    Expanded,
}

/// The header layout used for an archive: expanded only above `u16::MAX`.
pub open spec fn header_size_of(archive_id: u32) -> SectorHeaderSize {
    if archive_id > 0xFFFF {
        SectorHeaderSize::Expanded
    } else {
        SectorHeaderSize::Normal
    }
}

impl SectorHeaderSize {
    pub open spec fn header_len(self) -> nat {
        match self {
            SectorHeaderSize::Normal => 8,
            SectorHeaderSize::Expanded => 10,
        }
    }

    pub open spec fn data_len(self) -> nat {
        match self {
            SectorHeaderSize::Normal => 512,
            SectorHeaderSize::Expanded => 510,
        }
    }

    pub fn from_id(archive_id: u32) -> (r: SectorHeaderSize)
        ensures
            r == header_size_of(archive_id),
    {
        if archive_id > 0xFFFF {
            SectorHeaderSize::Expanded
        } else {
            SectorHeaderSize::Normal
        }
    }

    /// Bytes the header takes at the start of a sector.
    pub fn header_size(&self) -> (r: usize)
        ensures
            r == self.header_len(),
    {
        match self {
            SectorHeaderSize::Normal => SECTOR_HEADER_SIZE,
            SectorHeaderSize::Expanded => SECTOR_EXPANDED_HEADER_SIZE,
        }
    }

    /// Payload bytes that follow the header in a full sector.
    pub fn data_size(&self) -> (r: usize)
        ensures
            r == self.data_len(),
    {
        match self {
            SectorHeaderSize::Normal => SECTOR_DATA_SIZE,
            SectorHeaderSize::Expanded => SECTOR_EXPANDED_DATA_SIZE,
        }
    }
}

impl Default for SectorHeaderSize {
    fn default() -> (r: Self)
        ensures
            r == SectorHeaderSize::Normal,
    {
        SectorHeaderSize::Normal
    }
}

impl<'a> From<&'a ArchiveRef> for SectorHeaderSize {
    fn from(archive: &'a ArchiveRef) -> (r: Self) {
        SectorHeaderSize::from_id(archive.id)
    }
}

impl<'a> vstd::std_specs::convert::FromSpecImpl<&'a ArchiveRef> for SectorHeaderSize {
    open spec fn obeys_from_spec() -> bool {
        true
    }

    open spec fn from_spec(archive: &'a ArchiveRef) -> Self {
        header_size_of(archive.id)
    }
}

/// The validation fields and the chain link at the start of a sector.
#[derive(Clone, Copy, Debug, PartialEq, Eq, Structural, Default)]
pub struct SectorHeader {
    pub archive_id: u32,
    pub chunk: usize,
    pub next: usize,
    pub index_id: u8,
}

/// The header that the bytes at `off` hold, in the given layout.
pub open spec fn header_at(s: Seq<u8>, off: int, size: SectorHeaderSize) -> SectorHeader {
    let a = match size {
        SectorHeaderSize::Normal => be_u16_at(s, off),
        SectorHeaderSize::Expanded => be_u32_at(s, off),
    };
    let p = off + size.header_len() - 6;
    SectorHeader {
        archive_id: a as u32,
        chunk: be_u16_at(s, p) as usize,
        next: be_u24_at(s, p + 2) as usize,
        index_id: s[p + 5],
    }
}

impl SectorHeader {
    /// The outcome of checking a header against what the chain position expects:
    /// the archive id first, then the chunk, then the index id.
    pub open spec fn check(self, archive_id: u32, chunk: usize, index_id: u8) -> Result<(), ReadError> {
        if self.archive_id != archive_id {
            Err(ReadError::SectorArchiveMismatch(self.archive_id, archive_id))
        } else if self.chunk != chunk {
            Err(ReadError::SectorChunkMismatch(self.chunk, chunk))
        } else if self.index_id != index_id {
            Err(ReadError::SectorIndexMismatch(self.index_id, index_id))
        } else {
            Ok(())
        }
    }

    /// Parses a header from the start of `buffer`, giving the bytes after it too.
    pub fn new<'b>(buffer: &'b [u8], header_size: &SectorHeaderSize) -> (r: Result<
        (&'b [u8], SectorHeader),
        CacheError,
    >)
        ensures
            buffer@.len() >= header_size.header_len() <==> r is Ok,
            buffer@.len() < header_size.header_len() ==> r matches Err(
                CacheError::Parse(ParseError::Truncated),
            ),
            r matches Ok(p) ==> p.1 == header_at(buffer@, 0, *header_size) && p.0@ == buffer@.subrange(
                header_size.header_len() as int,
                buffer@.len() as int,
            ),
    {
        let h = header_size.header_size();
        if buffer.len() < h {
            return Err(CacheError::Parse(ParseError::Truncated));
        }
        let archive_id: u32 = match header_size {
            SectorHeaderSize::Normal => match read_u16(buffer, 0) {
                Some(v) => v as u32,
                None => return Err(CacheError::Parse(ParseError::Truncated)),
            },
            SectorHeaderSize::Expanded => match read_u32(buffer, 0) {
                Some(v) => v,
                None => return Err(CacheError::Parse(ParseError::Truncated)),
            },
        };
        let p = h - 6;
        let chunk = match read_u16(buffer, p) {
            Some(v) => v,
            None => return Err(CacheError::Parse(ParseError::Truncated)),
        };
        let next = match read_u24(buffer, p + 2) {
            Some(v) => v,
            None => return Err(CacheError::Parse(ParseError::Truncated)),
        };
        let index_id = match read_u8(buffer, p + 5) {
            Some(v) => v,
            None => return Err(CacheError::Parse(ParseError::Truncated)),
        };
        let rest = vstd::slice::slice_subrange(buffer, h, buffer.len());
        Ok((rest, SectorHeader { archive_id, chunk: chunk as usize, next: next as usize, index_id }))
    }

    /// Checks the header against the archive id, chain position and index id that
    /// the reader expects, reporting the first field that differs.
    pub fn validate(&self, archive_id: u32, chunk: usize, index_id: u8) -> (r: Result<(), ReadError>)
        ensures
            r == self.check(archive_id, chunk, index_id),
    {
        if self.archive_id != archive_id {
            return Err(ReadError::SectorArchiveMismatch(self.archive_id, archive_id));
        }
        if self.chunk != chunk {
            return Err(ReadError::SectorChunkMismatch(self.chunk, chunk));
        }
        if self.index_id != index_id {
            return Err(ReadError::SectorIndexMismatch(self.index_id, index_id));
        }
        Ok(())
    }
}

/// A sector: its header and the payload bytes after it.
#[derive(Clone, Copy, Debug, PartialEq, Eq)]
pub struct Sector<'a> {
    pub header: SectorHeader,
    pub data_block: &'a [u8],
}

impl<'a> Sector<'a> {
    /// Splits `buffer` into its header and the payload that follows it.
    pub fn new(buffer: &'a [u8], header_size: &SectorHeaderSize) -> (r: Result<Sector<'a>, CacheError>)
        ensures
            buffer@.len() >= header_size.header_len() <==> r is Ok,
            buffer@.len() < header_size.header_len() ==> r matches Err(
                CacheError::Parse(ParseError::Truncated),
            ),
            r matches Ok(s) ==> s.header == header_at(buffer@, 0, *header_size) && s.data_block@
                == buffer@.subrange(header_size.header_len() as int, buffer@.len() as int),
    {
        match SectorHeader::new(buffer, header_size) {
            Ok((rest, header)) => Ok(Sector { header, data_block: rest }),
            Err(e) => Err(e),
        }
    }
}

} // verus!
