//! Archive locators and archive descriptors.
use vstd::prelude::*;

use crate::error::ParseError;
use crate::parse::{be_u24_at, read_u24};
use crate::sector::{header_size_of, SectorHeaderSize};

verus! {

/// Length in bytes of one locator record in an index file.
pub const ARCHIVE_REF_LEN: usize = 6;

/// Where an archive's sector chain starts in the data file, and how long it is.
#[derive(Clone, Copy, Debug, PartialEq, Eq, Structural, Default)]
pub struct ArchiveRef {
    pub id: u32,
    pub index_id: u8,
    pub sector: usize,
    pub length: usize,
}

/// Number of sectors a payload of `len` bytes spans with blocks of `block` bytes.
pub open spec fn block_count(len: nat, block: nat) -> nat
    recommends
        block > 0,
{
    if len == 0 {
        0
    } else {
        ((len - 1) as nat / block) + 1
    }
}

pub open spec fn min_nat(a: nat, b: nat) -> nat {
    if a <= b {
        a
    } else {
        b
    }
}

/// The payload length carried by chunk `i` of a chain of `len` bytes.
pub open spec fn block_len(len: nat, block: nat, i: nat) -> nat {
    min_nat((len - i * block) as nat, block)
}

impl ArchiveRef {
    /// Parses a six-byte locator: a 24-bit big-endian length, then a 24-bit
    /// big-endian first sector.
    pub fn from_buffer(id: u32, index_id: u8, buffer: &[u8]) -> (r: Result<ArchiveRef, ParseError>)
        ensures
            buffer@.len() >= 6 <==> r is Ok,
            buffer@.len() < 6 ==> r == Err::<ArchiveRef, ParseError>(ParseError::Archive(id)),
            r matches Ok(a) ==> a.id == id && a.index_id == index_id && a.length as int
                == be_u24_at(buffer@, 0) && a.sector as int == be_u24_at(buffer@, 3),
    {
        let length = match read_u24(buffer, 0) {
            Some(v) => v,
            None => return Err(ParseError::Archive(id)),
        };
        let sector = match read_u24(buffer, 3) {
            Some(v) => v,
            None => return Err(ParseError::Archive(id)),
        };
        Ok(ArchiveRef { id, index_id, sector: sector as usize, length: length as usize })
    }

    /// An archive whose locator has length zero holds nothing; an all-zero locator
    /// is such an archive.
    pub open spec fn is_empty_spec(&self) -> bool {
        self.length == 0
    }

    pub fn is_empty(&self) -> (r: bool)
        ensures
            r == self.is_empty_spec(),
    {
        self.length == 0
    }

    /// The payload length of each sector in the archive's chain, in chain order.
    pub fn data_blocks(&self) -> (r: Vec<usize>)
        ensures
            r@.len() == block_count(self.length as nat, header_size_of(self.id).data_len() as nat),
            forall|i: int|
                0 <= i < r@.len() ==> #[trigger] r@[i] as nat == block_len(
                    self.length as nat,
                    header_size_of(self.id).data_len() as nat,
                    i as nat,
                ),
    {
        let size = SectorHeaderSize::from_id(self.id);
        let block = size.data_size();
        let mut out: Vec<usize> = Vec::new();
        let mut remaining: usize = self.length;
        let ghost len = self.length as nat;
        let ghost b = block as nat;
        while remaining > 0
            invariant
                b == header_size_of(self.id).data_len(),
                b == 512 || b == 510,
                block as nat == b,
                remaining <= len,
                len == self.length,
                remaining > 0 ==> out@.len() * b + remaining == len,
                remaining > 0 ==> out@.len() < block_count(len, b),
                remaining == 0 ==> out@.len() == block_count(len, b),
                forall|i: int|
                    0 <= i < out@.len() ==> #[trigger] out@[i] as nat == block_len(len, b, i as nat),
            decreases remaining,
        {
            let n = if remaining < block {
                remaining
            } else {
                block
            };
            proof {
                let k = out@.len();
                assert(len - k * b == remaining);
                assert(block_len(len, b, k as nat) == n);
                assert((len - 1) as nat / b == k + ((remaining - 1) as nat / b)) by (nonlinear_arith)
                    requires
                        len == k * b + remaining,
                        remaining > 0,
                        b > 0,
                ;
                if remaining > n {
                    assert(remaining - n > 0);
                    assert((remaining - 1) as nat / b >= 1) by (nonlinear_arith)
                        requires
                            remaining - 1 >= b,
                            b > 0,
                    ;
                } else {
                    assert((remaining - 1) as nat / b == 0) by (nonlinear_arith)
                        requires
                            remaining - 1 < b,
                            remaining >= 1,
                    ;
                }
            }
            out.push(n);
            remaining = remaining - n;
        }
        out
    }
}

/// One archive's descriptor in an index's reference-table metadata.
#[derive(Clone, Debug, PartialEq, Eq, Default)]
pub struct ArchiveMetadata {
    pub id: u32,
    pub name_hash: i32,
    pub crc: u32,
    pub hash: i32,
    /// The 64-byte whirlpool digest, all zero when the table carries none.
    pub whirlpool: Vec<u8>,
    pub version: u32,
    pub entry_count: usize,
    pub valid_ids: Vec<u32>,
}

} // verus!
