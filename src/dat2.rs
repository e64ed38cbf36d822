//! The data file: archives stored as chains of fixed-size sectors.
use vstd::prelude::*;

use crate::archive::{min_nat, ArchiveRef};
use crate::codec::{Buffer, Compression, Encoded};
use crate::codec::{decoded, unframed};
use crate::metadata::{metadata_spec, ArchiveMetadataView, IndexMetadata};
use crate::error::{CacheError, ParseError};
use crate::parse::extend_bytes;
use crate::sector::{header_at, header_size_of, Sector, SectorHeaderSize, SECTOR_SIZE};

verus! {

/// `p` followed by the bytes of `r`, or the error of `r`.
pub open spec fn prepend(p: Seq<u8>, r: Result<Seq<u8>, CacheError>) -> Result<Seq<u8>, CacheError> {
    match r {
        Ok(s) => Ok(p + s),
        Err(e) => Err(e),
    }
}

/// An executable outcome agrees with a modelled one.
pub open spec fn same_outcome(r: Result<Vec<u8>, CacheError>, s: Result<Seq<u8>, CacheError>) -> bool {
    match (r, s) {
        (Ok(v), Ok(t)) => v@ == t,
        (Err(e), Err(f)) => e == f,
        _ => false,
    }
}

/// The rest of an archive's chain, from `sector` at chain position `chunk` with
/// `remaining` payload bytes still to read. Each sector's slot must lie inside the
/// data and its header must name the archive, the position and the index.
pub open spec fn walk(data: Seq<u8>, r: ArchiveRef, sector: nat, chunk: nat, remaining: nat) -> Result<
    Seq<u8>,
    CacheError,
>
    decreases remaining,
{
    if remaining == 0 {
        Ok(Seq::empty())
    } else {
        let size = header_size_of(r.id);
        let h = size.header_len() as int;
        let n = min_nat(remaining, size.data_len());
        let off = sector * SECTOR_SIZE;
        if off + h + n > data.len() {
            Err(CacheError::Parse(ParseError::Sector(r.sector)))
        } else {
            let hd = header_at(data, off, size);
            match hd.check(r.id, chunk as usize, r.index_id) {
                Err(e) => Err(CacheError::Read(e)),
                Ok(_) => prepend(
                    data.subrange(off + h, off + h + n),
                    walk(data, r, hd.next as nat, chunk + 1, (remaining - n) as nat),
                ),
            }
        }
    }
}

/// What reading the archive that `r` locates out of `data` gives.
pub open spec fn read_spec(data: Seq<u8>, r: ArchiveRef) -> Result<Seq<u8>, CacheError> {
    walk(data, r, r.sector as nat, 0, r.length as nat)
}

proof fn lemma_header_at_subrange(s: Seq<u8>, off: int, end: int, size: SectorHeaderSize)
    requires
        0 <= off,
        off + size.header_len() <= end <= s.len(),
    ensures
        header_at(s.subrange(off, end), 0, size) == header_at(s, off, size),
{
    let t = s.subrange(off, end);
    let hl = size.header_len() as int;
    assert forall|i: int| 0 <= i < hl implies t[i] == s[off + i] by {}
}

/// The sector at chain position `i` when the chain starts at `sector`.
pub open spec fn chain_sector(data: Seq<u8>, size: SectorHeaderSize, sector: nat, i: nat) -> nat
    decreases i,
{
    if i == 0 {
        sector
    } else {
        chain_sector(data, size, header_at(data, sector * SECTOR_SIZE, size).next as nat, (i - 1) as nat)
    }
}

/// In a chain that reads successfully, the header of the sector at every chain
/// position names the archive, that position and the index.
pub proof fn lemma_chain_headers(data: Seq<u8>, r: ArchiveRef, i: nat)
    requires
        read_spec(data, r) is Ok,
        i < crate::archive::block_count(r.length as nat, header_size_of(r.id).data_len()),
    ensures
        ({
            let size = header_size_of(r.id);
            let h = header_at(data, chain_sector(data, size, r.sector as nat, i) * SECTOR_SIZE, size);
            h.archive_id == r.id && h.chunk == i && h.index_id == r.index_id
        }),
{
    lemma_walk_headers(data, r, r.sector as nat, 0, r.length as nat, i);
}

proof fn lemma_walk_headers(data: Seq<u8>, r: ArchiveRef, sector: nat, chunk: nat, remaining: nat, i: nat)
    requires
        walk(data, r, sector, chunk, remaining) is Ok,
        i < crate::archive::block_count(remaining, header_size_of(r.id).data_len()),
        chunk + i <= usize::MAX,
    ensures
        ({
            let size = header_size_of(r.id);
            let h = header_at(data, chain_sector(data, size, sector, i) * SECTOR_SIZE, size);
            h.archive_id == r.id && h.chunk == chunk + i && h.index_id == r.index_id
        }),
    decreases remaining,
{
    let size = header_size_of(r.id);
    let b = size.data_len();
    let n = min_nat(remaining, b);
    let hd = header_at(data, sector * SECTOR_SIZE, size);
    assert(remaining > 0);
    if i > 0 {
        let x = (remaining - 1) as nat;
        assert(x / b >= 1);
        assert(x >= b) by (nonlinear_arith)
            requires
                x / b >= 1,
                b > 0,
        ;
        assert(crate::archive::block_count((remaining - n) as nat, b) == crate::archive::block_count(remaining, b) - 1) by (nonlinear_arith)
            requires
                remaining > b,
                n == b,
                b > 0,
        ;
        lemma_walk_headers(data, r, hd.next as nat, chunk + 1, (remaining - n) as nat, (i - 1) as nat);
    }
}

/// Chain position `i` of a walk from `sector` at position `chunk` with `remaining`
/// bytes to read: its slot lies inside the data and its header names the archive,
/// the position and the index.
pub open spec fn slot_valid(data: Seq<u8>, r: ArchiveRef, sector: nat, chunk: nat, remaining: nat, i: nat) -> bool {
    let size = header_size_of(r.id);
    let s = chain_sector(data, size, sector, i);
    let n = crate::archive::block_len(remaining, size.data_len(), i);
    &&& s * SECTOR_SIZE + size.header_len() + n <= data.len()
    &&& header_at(data, s * SECTOR_SIZE, size).check(r.id, (chunk + i) as usize, r.index_id) is Ok
}

/// A chain whose every position has its slot inside the data and a matching
/// header reads successfully.
pub proof fn lemma_valid_chain_reads(data: Seq<u8>, r: ArchiveRef)
    requires
        forall|i: nat|
            i < crate::archive::block_count(r.length as nat, header_size_of(r.id).data_len()) ==> #[trigger] slot_valid(
                data,
                r,
                r.sector as nat,
                0,
                r.length as nat,
                i,
            ),
    ensures
        read_spec(data, r) is Ok,
{
    lemma_valid_walk(data, r, r.sector as nat, 0, r.length as nat);
}

proof fn lemma_valid_walk(data: Seq<u8>, r: ArchiveRef, sector: nat, chunk: nat, remaining: nat)
    requires
        forall|i: nat|
            i < crate::archive::block_count(remaining, header_size_of(r.id).data_len()) ==> #[trigger] slot_valid(
                data,
                r,
                sector,
                chunk,
                remaining,
                i,
            ),
    ensures
        walk(data, r, sector, chunk, remaining) is Ok,
    decreases remaining,
{
    if remaining > 0 {
        let size = header_size_of(r.id);
        let b = size.data_len();
        let n = min_nat(remaining, b);
        let hd = header_at(data, sector * SECTOR_SIZE, size);
        assert(slot_valid(data, r, sector, chunk, remaining, 0));
        assert(crate::archive::block_len(remaining, b, 0) == n);
        if remaining > b {
            let rest = (remaining - n) as nat;
            assert(crate::archive::block_count(rest, b) == crate::archive::block_count(remaining, b) - 1) by (nonlinear_arith)
                requires
                    remaining > b,
                    n == b,
                    b > 0,
                    rest == remaining - n,
            ;
            assert forall|i: nat| i < crate::archive::block_count(rest, b) implies #[trigger] slot_valid(
                data,
                r,
                hd.next as nat,
                chunk + 1,
                rest,
                i,
            ) by {
                assert(slot_valid(data, r, sector, chunk, remaining, i + 1));
                assert(chain_sector(data, size, sector, i + 1) == chain_sector(data, size, hd.next as nat, i));
                assert(remaining - (i + 1) * b == rest - i * b) by (nonlinear_arith)
                    requires
                        rest == remaining - b,
                ;
            }
            lemma_valid_walk(data, r, hd.next as nat, chunk + 1, rest);
        } else {
            assert(remaining - n == 0);
            assert(walk(data, r, hd.next as nat, chunk + 1, 0) is Ok);
        }
        assert(chain_sector(data, size, sector, 0) == sector);
        assert(walk(data, r, hd.next as nat, chunk + 1, (remaining - n) as nat) is Ok);
    }
}

/// A chain that reads successfully gives exactly the bytes it was asked for.
pub proof fn lemma_walk_len(data: Seq<u8>, r: ArchiveRef, sector: nat, chunk: nat, remaining: nat)
    ensures
        walk(data, r, sector, chunk, remaining) matches Ok(s) ==> s.len() == remaining,
    decreases remaining,
{
    if remaining > 0 {
        let size = header_size_of(r.id);
        let n = min_nat(remaining, size.data_len());
        let off = sector * SECTOR_SIZE;
        let hd = header_at(data, off, size);
        let h = size.header_len() as int;
        lemma_walk_len(data, r, hd.next as nat, chunk + 1, (remaining - n) as nat);
        if off + h + n <= data.len() && hd.check(r.id, chunk as usize, r.index_id) is Ok {
            let rest = walk(data, r, hd.next as nat, chunk + 1, (remaining - n) as nat);
            if rest is Ok {
                assert(data.subrange(off + h, off + h + n).len() == n);
            }
        }
    }
}

/// Reads the archive that `archive_ref` locates out of the bytes of a data file.
pub fn read_archive(data: &[u8], archive_ref: &ArchiveRef) -> (r: Result<Vec<u8>, CacheError>)
    ensures
        same_outcome(r, read_spec(data@, *archive_ref)),
        r matches Ok(v) ==> v@.len() == archive_ref.length,
        archive_ref.length == 0 ==> r is Ok,
{
    let ghost r0 = *archive_ref;
    let dlen = data.len();
    let size = SectorHeaderSize::from_id(archive_ref.id);
    let h = size.header_size();
    let block = size.data_size();
    let mut out: Vec<u8> = Vec::new();
    let mut current: usize = archive_ref.sector;
    let mut chunk: usize = 0;
    let mut remaining: usize = archive_ref.length;
    while remaining > 0
        invariant
            size == header_size_of(r0.id),
            h == size.header_len(),
            block == size.data_len(),
            r0 == *archive_ref,
            dlen == data@.len(),
            prepend(out@, walk(data@, r0, current as nat, chunk as nat, remaining as nat))
                == read_spec(data@, r0),
            chunk <= out@.len(),
            out@.len() + remaining == r0.length,
        decreases remaining,
    {
        let n = if remaining < block {
            remaining
        } else {
            block
        };
        let fail = CacheError::Parse(ParseError::Sector(archive_ref.sector));
        let off = match current.checked_mul(SECTOR_SIZE) {
            Some(v) => v,
            None => return Err(fail),
        };
        let end = match off.checked_add(h + n) {
            Some(v) => v,
            None => return Err(fail),
        };
        if end > dlen {
            return Err(fail);
        }
        let slot = vstd::slice::slice_subrange(data, off, end);
        proof {
            lemma_header_at_subrange(data@, off as int, end as int, size);
        }
        let sector = match Sector::new(slot, &size) {
            Ok(s) => s,
            Err(_) => return Err(fail),
        };
        match sector.header.validate(archive_ref.id, chunk, archive_ref.index_id) {
            Err(e) => return Err(CacheError::Read(e)),
            Ok(_) => {},
        }
        let ghost before = out@;
        extend_bytes(&mut out, sector.data_block);
        proof {
            let rest = walk(data@, r0, sector.header.next as nat, (chunk + 1) as nat, (remaining - n) as nat);
            assert(sector.data_block@ == data@.subrange(off + h, off + h + n));
            if rest is Ok {
                assert(before + (sector.data_block@ + rest->Ok_0) == out@ + rest->Ok_0);
            }
        }
        current = sector.header.next;
        chunk = chunk + 1;
        remaining = remaining - n;
    }
    assert(out@ + Seq::<u8>::empty() == out@);
    Ok(out)
}


/// The metadata that the archive `r` of the reference table holds, read out of
/// `data` and decoded.
pub open spec fn metadata_of_archive(data: Seq<u8>, r: ArchiveRef) -> Option<Seq<ArchiveMetadataView>> {
    match read_spec(data, r) {
        Ok(bytes) => match decoded(bytes, None) {
            Some((_, payload, _)) => metadata_spec(payload),
            None => None,
        },
        Err(_) => None,
    }
}

/// Reads the reference-table archive that `archive_ref` locates out of the bytes
/// of a data file, decodes it and parses its metadata. The first failure of the
/// three steps is the result.
pub fn metadata_from_data(data: &[u8], archive_ref: &ArchiveRef) -> (r: Result<IndexMetadata, CacheError>)
    ensures
        match metadata_of_archive(data@, *archive_ref) {
            Some(m) => r matches Ok(x) && x@ == m,
            None => r is Err,
        },
        read_spec(data@, *archive_ref) matches Err(e) ==> r matches Err(g) && g == e,
        read_spec(data@, *archive_ref) matches Ok(bytes) ==> (unframed(bytes, None) matches Err(e) ==> r matches Err(g)
            && g == e),
{
    let bytes = match read_archive(data, archive_ref) {
        Ok(v) => v,
        Err(e) => return Err(e),
    };
    let frame: Buffer<Encoded> = Buffer::new(bytes);
    let payload = match frame.decode() {
        Ok(p) => p,
        Err(e) => return Err(e),
    };
    IndexMetadata::from_buffer(payload)
}

#[verifier::external_type_specification]
#[verifier::external_body]
pub struct ExMmap(memmap2::Mmap);

/// Relies on memmap2's `Mmap` dereferencing to the mapped bytes. What they are is
/// whatever the file holds, so nothing is stated of them.
#[verifier::external_body]
fn mapped(map: &memmap2::Mmap) -> (r: &[u8]) {
    &map[..]
}

/// The data file, memory-mapped: archives are read out of it by their locators.
pub struct Dat2 {
    map: memmap2::Mmap,
}

impl Dat2 {
    /// Wraps a memory map of the data file.
    pub fn from_map(map: memmap2::Mmap) -> (r: Dat2) {
        Dat2 { map }
    }

    /// The mapped bytes of the data file.
    pub fn as_slice(&self) -> (r: &[u8]) {
        mapped(&self.map)
    }

    /// Reads all the data of the archive that `archive_ref` locates, as an encoded
    /// frame of exactly `archive_ref.length` bytes.
    pub fn read(&self, archive_ref: &ArchiveRef) -> (r: Result<Buffer<Encoded>, CacheError>)
        ensures
            archive_ref.length == 0 ==> r is Ok,
            r matches Ok(b) ==> b@.bytes.len() == archive_ref.length && b@.compression
                == Compression::Uncompressed && b@.version is None && b@.keys is None,
            r matches Ok(b) ==> exists|d: Seq<u8>|
                #[trigger] read_spec(d, *archive_ref) == Ok::<Seq<u8>, CacheError>(b@.bytes),
    {
        let data = mapped(&self.map);
        match read_archive(data, archive_ref) {
            Ok(v) => {
                let b = Buffer::new(v);
                assert(read_spec(data@, *archive_ref) == Ok::<Seq<u8>, CacheError>(b@.bytes));
                Ok(b)
            },
            Err(e) => Err(e),
        }
    }

    /// Appends all the data of the archive that `archive_ref` locates to `writer`;
    /// on failure `writer` is left as it was.
    pub fn read_into_writer(&self, archive_ref: &ArchiveRef, writer: &mut Vec<u8>) -> (r: Result<(), CacheError>)
        ensures
            archive_ref.length == 0 ==> r is Ok,
            r is Ok ==> final(writer)@.len() == old(writer)@.len() + archive_ref.length,
            r is Ok ==> exists|d: Seq<u8>|
                #[trigger] read_spec(d, *archive_ref) == Ok::<Seq<u8>, CacheError>(
                    final(writer)@.subrange(old(writer)@.len() as int, final(writer)@.len() as int),
                ),
            r is Err ==> final(writer)@ == old(writer)@,
    {
        let data = mapped(&self.map);
        match read_archive(data, archive_ref) {
            Ok(v) => {
                let ghost before = writer@;
                extend_bytes(writer, v.as_slice());
                assert(writer@.subrange(before.len() as int, writer@.len() as int) =~= v@);
                assert(read_spec(data@, *archive_ref) == Ok::<Seq<u8>, CacheError>(v@));
                Ok(())
            },
            Err(e) => Err(e),
        }
    }

    /// Reads, decodes and parses the reference-table archive that `archive_ref`
    /// locates.
    pub fn metadata(&self, archive_ref: &ArchiveRef) -> (r: Result<IndexMetadata, CacheError>)
        ensures
            r matches Ok(m) ==> exists|d: Seq<u8>|
                #[trigger] metadata_of_archive(d, *archive_ref) == Some(m@),
            r is Err ==> exists|d: Seq<u8>| #[trigger] metadata_of_archive(d, *archive_ref) is None,
    {
        let data = mapped(&self.map);
        let r = metadata_from_data(data, archive_ref);
        assert(r is Ok ==> metadata_of_archive(data@, *archive_ref) == Some(r->Ok_0@));
        assert(r is Err ==> metadata_of_archive(data@, *archive_ref) is None);
        r
    }
}

} // verus!
