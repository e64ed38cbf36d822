//! Index files and the set of indices of a cache.
use vstd::prelude::*;

use std::collections::HashMap;

use crate::archive::{ArchiveRef, ARCHIVE_REF_LEN};
use crate::dat2::{metadata_from_data, metadata_of_archive, Dat2};
use crate::error::{CacheError, ParseError, ReadError};
use crate::metadata::{ArchiveMetadataView, IndexMetadata};
use crate::parse::be_u24_at;

verus! {

broadcast use vstd::std_specs::hash::group_hash_axioms;

/// The id of the reference table, whose archives describe the other indices.
pub const REFERENCE_TABLE_ID: u8 = 255;

/// Locator `i` of an index file with id `index_id`.
pub open spec fn locator_at(index_id: u8, s: Seq<u8>, i: int) -> ArchiveRef {
    ArchiveRef {
        id: i as u32,
        index_id,
        length: be_u24_at(s, 6 * i) as usize,
        sector: be_u24_at(s, 6 * i + 3) as usize,
    }
}

/// The locators of an index file: record `i` describes archive `i`; a trailing
/// partial record is ignored.
pub open spec fn locators(index_id: u8, s: Seq<u8>) -> Map<u32, ArchiveRef> {
    Map::new(|k: u32| (k as int) < s.len() / 6, |k: u32| locator_at(index_id, s, k as int))
}

/// The index is the reference table itself or has a locator in it.
pub open spec fn has_locator(refs: Map<u32, ArchiveRef>, index: Index) -> bool {
    index.id == REFERENCE_TABLE_ID || refs.contains_key(index.id as u32)
}

/// The index is the reference table itself or has an empty archive as its
/// metadata: loading it reads nothing.
pub open spec fn empty_locator(refs: Map<u32, ArchiveRef>, index: Index) -> bool {
    index.id == REFERENCE_TABLE_ID || (refs.contains_key(index.id as u32) && refs[index.id as u32].length
        == 0)
}

/// The index can be loaded: it has a locator in the reference table, and unless the
/// located archive is empty, its metadata reads, decodes and parses out of `data`.
pub open spec fn loads(refs: Map<u32, ArchiveRef>, data: Seq<u8>, index: Index) -> bool {
    index.id == REFERENCE_TABLE_ID || (refs.contains_key(index.id as u32) && (refs[index.id as u32].length
        > 0 ==> metadata_of_archive(data, refs[index.id as u32]) is Some))
}

/// Each index other than the reference table sits under its own id, has a locator
/// in the reference table, and carries the metadata that the located archive of
/// `data` holds (none when the archive is empty).
pub open spec fn indices_agree(x: Map<u8, Index>, refs: Map<u32, ArchiveRef>, data: Seq<u8>) -> bool {
    forall|k: u8|
        #[trigger] x.contains_key(k) && k != REFERENCE_TABLE_ID ==> {
            &&& x[k].id == k
            &&& refs.contains_key(k as u32)
            &&& refs[k as u32].length == 0 ==> x[k].metadata@ == Seq::<ArchiveMetadataView>::empty()
            &&& refs[k as u32].length > 0 ==> metadata_of_archive(data, refs[k as u32]) == Some(
                x[k].metadata@,
            )
        }
}

/// The locators of one index file, with the metadata the reference table holds for it.
pub struct Index {
    pub id: u8,
    pub archive_refs: HashMap<u32, ArchiveRef>,
    pub metadata: IndexMetadata,
}

impl Index {
    /// Parses the bytes of an index file with the given id.
    pub fn from_buffer(id: u8, buffer: &[u8]) -> (r: Result<Index, CacheError>)
        ensures
            buffer@.len() / 6 <= 0x1_0000_0000 <==> r is Ok,
            r matches Err(e) ==> e == CacheError::Parse(ParseError::Oversized),
            r matches Ok(x) ==> x.id == id && x.archive_refs@ == locators(id, buffer@) && x.metadata@
                == Seq::<ArchiveMetadataView>::empty(),
    {
        let len = buffer.len();
        let n = len / ARCHIVE_REF_LEN;
        if n as u64 > 0x1_0000_0000u64 {
            return Err(CacheError::Parse(ParseError::Oversized));
        }
        let mut archive_refs: HashMap<u32, ArchiveRef> = HashMap::new();
        let mut i: usize = 0;
        while i < n
            invariant
                n == buffer@.len() / 6,
                len == buffer@.len(),
                n <= 0x1_0000_0000,
                i <= n,
                archive_refs@ == Map::new(|k: u32| (k as int) < i, |k: u32| locator_at(id, buffer@, k as int)),
            decreases n - i,
        {
            assert(6 * i + 6 <= buffer@.len()) by (nonlinear_arith)
                requires
                    i < n,
                    n == buffer@.len() / 6,
            ;
            let record = vstd::slice::slice_subrange(buffer, 6 * i, 6 * i + 6);
            let archive_ref = match ArchiveRef::from_buffer(i as u32, id, record) {
                Ok(a) => a,
                Err(_) => return Err(CacheError::Parse(ParseError::Archive(i as u32))),
            };
            assert(be_u24_at(record@, 0) == be_u24_at(buffer@, 6 * i));
            assert(be_u24_at(record@, 3) == be_u24_at(buffer@, 6 * i + 3));
            archive_refs.insert(i as u32, archive_ref);
            i = i + 1;
            assert(archive_refs@ =~= Map::new(|k: u32| (k as int) < i, |k: u32| locator_at(id, buffer@, k as int)));
        }
        assert(archive_refs@ =~= locators(id, buffer@));
        Ok(Index { id, archive_refs, metadata: IndexMetadata::default() })
    }
}

/// The indices of a cache, by id; the reference table is always among them.
pub struct Indices(HashMap<u8, Index>);

impl View for Indices {
    type V = Map<u8, Index>;

    closed spec fn view(&self) -> Map<u8, Index> {
        self.0@
    }
}

impl Indices {
    /// Puts the indices together: each index other than the reference table gets
    /// the metadata that the reference table's archive of the same id holds, read out
    /// of `data`, the bytes of the data file. Indices are keyed by their own id. The
    /// first index that cannot be loaded gives the error.
    pub fn from_indexes(reference: Index, indexes: Vec<Index>, data: &[u8]) -> (r: Result<Indices, CacheError>)
        ensures
            r matches Ok(x) ==> x@.contains_key(REFERENCE_TABLE_ID) && x@[REFERENCE_TABLE_ID] == reference,
            r matches Ok(x) ==> forall|k: u8| #[trigger] x@.contains_key(k) ==> k == REFERENCE_TABLE_ID
                || exists|i: int| 0 <= i < indexes@.len() && indexes@[i].id == k,
            r matches Ok(x) ==> forall|i: int|
                0 <= i < indexes@.len() ==> #[trigger] x@.contains_key(indexes@[i].id),
            r matches Ok(x) ==> forall|k: u8|
                #[trigger] x@.contains_key(k) && k != REFERENCE_TABLE_ID ==> exists|i: int|
                    0 <= i < indexes@.len() && #[trigger] indexes@[i].id == k && x@[k].archive_refs@
                        == indexes@[i].archive_refs@,
            r matches Ok(x) ==> indices_agree(x@, reference.archive_refs@, data@),
            (forall|i: int|
                0 <= i < indexes@.len() ==> #[trigger] loads(reference.archive_refs@, data@, indexes@[i]))
                ==> r is Ok,
            forall|i: int|
                0 <= i < indexes@.len() && !has_locator(reference.archive_refs@, #[trigger] indexes@[i])
                    && (forall|j: int| 0 <= j < i ==> loads(reference.archive_refs@, data@, indexes@[j]))
                    ==> (r matches Err(e) && e == CacheError::Read(
                    ReadError::ArchiveNotFound { idx: REFERENCE_TABLE_ID, arc: indexes@[i].id as u32 },
                )),
            (exists|i: int|
                0 <= i < indexes@.len() && !has_locator(reference.archive_refs@, #[trigger] indexes@[i]))
                ==> r is Err,
    {
        let ghost refs = reference.archive_refs@;
        let ghost all = indexes@;
        let mut map: HashMap<u8, Index> = HashMap::new();
        let mut rest = indexes;
        let mut taken: usize = 0;
        let total = rest.len();
        while rest.len() > 0
            invariant
                refs == reference.archive_refs@,
                all == indexes@,
                total == all.len(),
                taken + rest@.len() == total,
                rest@ == all.subrange(taken as int, total as int),
                forall|j: int| 0 <= j < taken ==> #[trigger] loads(refs, data@, all[j]),
                forall|k: u8| #[trigger] map@.contains_key(k) ==> k != REFERENCE_TABLE_ID
                    && exists|i: int| 0 <= i < taken && all[i].id == k,
                forall|k: u8| #[trigger] map@.contains_key(k) ==> exists|i: int|
                    0 <= i < taken && #[trigger] all[i].id == k && map@[k].archive_refs@ == all[i].archive_refs@,
                forall|i: int| 0 <= i < taken && all[i].id != REFERENCE_TABLE_ID ==> #[trigger] map@.contains_key(all[i].id),
                forall|i: int| 0 <= i < taken && all[i].id != REFERENCE_TABLE_ID ==> refs.contains_key(#[trigger] all[i].id as u32),
                indices_agree(map@, refs, data@),
            decreases rest@.len(),
        {
            let mut index = rest.remove(0);
            assert(index == all[taken as int]);
            if index.id != REFERENCE_TABLE_ID {
                let key: u32 = index.id as u32;
                let archive_ref = match reference.archive_refs.get(&key) {
                    Some(a) => *a,
                    None => {
                        assert(!has_locator(refs, all[taken as int]));
                        assert(!loads(refs, data@, all[taken as int]));
                        assert forall|i: int|
                            0 <= i < all.len() && !has_locator(refs, #[trigger] all[i]) && (forall|j: int|
                                0 <= j < i ==> loads(refs, data@, all[j])) implies i == taken by {
                            if i > taken {
                                assert(loads(refs, data@, all[taken as int]));
                            }
                        }
                        return Err(
                            CacheError::Read(ReadError::ArchiveNotFound { idx: REFERENCE_TABLE_ID, arc: key }),
                        )
                    },
                };
                if archive_ref.length != 0 {
                    index.metadata = match metadata_from_data(data, &archive_ref) {
                        Ok(m) => m,
                        Err(e) => {
                            assert(!loads(refs, data@, all[taken as int]));
                            assert forall|i: int|
                                0 <= i < all.len() && !has_locator(refs, #[trigger] all[i]) implies !(forall|j: int|
                                    0 <= j < i ==> loads(refs, data@, all[j])) by {
                                if i <= taken {
                                    assert(has_locator(refs, all[i]));
                                } else {
                                    assert(!loads(refs, data@, all[taken as int]));
                                }
                            }
                            return Err(e);
                        },
                    };
                } else {
                    index.metadata = IndexMetadata::default();
                }
                assert(index.archive_refs@ == all[taken as int].archive_refs@);
                let id = index.id;
                map.insert(id, index);
                proof {
                    assert forall|k: u8| #[trigger] map@.contains_key(k) implies exists|i: int|
                        0 <= i < taken + 1 && #[trigger] all[i].id == k && map@[k].archive_refs@
                            == all[i].archive_refs@ by {
                        if k == id {
                            assert(all[taken as int].id == k);
                        }
                    }
                    assert forall|k: u8| #[trigger] map@.contains_key(k) implies k != REFERENCE_TABLE_ID
                        && exists|i: int| 0 <= i < taken + 1 && all[i].id == k by {
                        if k == id {
                            assert(all[taken as int].id == k);
                        }
                    }
                }
            }
            assert(loads(refs, data@, all[taken as int]));
            taken = taken + 1;
        }
        map.insert(REFERENCE_TABLE_ID, reference);
        Ok(Indices(map))
    }

    /// Puts the indices together as `from_indexes` does, reading the reference
    /// table's archives out of the mapped data file.
    pub fn assemble(reference: Index, indexes: Vec<Index>, dat2: &Dat2) -> (r: Result<Indices, CacheError>)
        ensures
            r matches Ok(x) ==> x@.contains_key(REFERENCE_TABLE_ID) && x@[REFERENCE_TABLE_ID] == reference,
            r matches Ok(x) ==> forall|i: int|
                0 <= i < indexes@.len() ==> #[trigger] x@.contains_key(indexes@[i].id),
            r matches Ok(x) ==> forall|k: u8|
                #[trigger] x@.contains_key(k) && k != REFERENCE_TABLE_ID ==> exists|i: int|
                    0 <= i < indexes@.len() && #[trigger] indexes@[i].id == k && x@[k].archive_refs@
                        == indexes@[i].archive_refs@,
            r matches Ok(x) ==> exists|d: Seq<u8>| #[trigger] indices_agree(x@, reference.archive_refs@, d),
            (forall|i: int|
                0 <= i < indexes@.len() ==> #[trigger] empty_locator(reference.archive_refs@, indexes@[i]))
                ==> r is Ok,
            (exists|i: int|
                0 <= i < indexes@.len() && indexes@[i].id != REFERENCE_TABLE_ID
                    && !reference.archive_refs@.contains_key(#[trigger] indexes@[i].id as u32)) ==> r is Err,
    {
        let ghost refs = reference.archive_refs@;
        let ghost all = indexes@;
        let data = dat2.as_slice();
        proof {
            assert forall|i: int| 0 <= i < all.len() && empty_locator(refs, all[i]) implies #[trigger] loads(
                refs,
                data@,
                all[i],
            ) by {}
        }
        let r = Indices::from_indexes(reference, indexes, data);
        assert(r is Ok ==> indices_agree(r->Ok_0@, refs, data@));
        r
    }

    /// The index with the given id.
    pub fn get(&self, key: &u8) -> (r: Option<&Index>)
        ensures
            self@.contains_key(*key) ==> (r matches Some(x) && *x == self@[*key]),
            !self@.contains_key(*key) ==> r is None,
    {
        self.0.get(key)
    }

    /// How many indices there are.
    pub fn count(&self) -> (r: usize)
        ensures
            r == self@.len(),
    {
        self.0.len()
    }
}


/// An all-zero locator record describes an empty archive at sector zero.
pub proof fn lemma_zero_locator_empty(index_id: u8, s: Seq<u8>, i: int)
    requires
        0 <= i,
        6 * i + 6 <= s.len(),
        forall|j: int| 6 * i <= j < 6 * i + 6 ==> s[j] == 0,
    ensures
        locator_at(index_id, s, i).length == 0,
        locator_at(index_id, s, i).sector == 0,
        locator_at(index_id, s, i).is_empty_spec(),
{
    assert(s[6 * i] == 0 && s[6 * i + 1] == 0 && s[6 * i + 2] == 0);
    assert(s[6 * i + 3] == 0 && s[6 * i + 4] == 0 && s[6 * i + 5] == 0);
}

} // verus!
