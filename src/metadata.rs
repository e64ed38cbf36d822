//! The reference-table metadata of an index: one descriptor per archive.
use vstd::prelude::*;

use crate::archive::ArchiveMetadata;
use crate::codec::{Buffer, Decoded};
use crate::error::{CacheError, ParseError};
use crate::parse::{be_u16_at, be_u32_at, read_u16, read_u32, read_u32_smart, read_u8, smart_value, smart_width};
use vstd::std_specs::iter::IteratorSpec;
use vstd::wrapping::u32_specs::wrapping_add;

verus! {

/// An archive descriptor as values.
pub struct ArchiveMetadataView {
    pub id: u32,
    pub name_hash: i32,
    pub crc: u32,
    pub hash: i32,
    pub whirlpool: Seq<u8>,
    pub version: u32,
    pub entry_count: usize,
    pub valid_ids: Seq<u32>,
}

impl View for ArchiveMetadata {
    type V = ArchiveMetadataView;

    open spec fn view(&self) -> ArchiveMetadataView {
        ArchiveMetadataView {
            id: self.id,
            name_hash: self.name_hash,
            crc: self.crc,
            hash: self.hash,
            whirlpool: self.whirlpool@,
            version: self.version,
            entry_count: self.entry_count,
            valid_ids: self.valid_ids@,
        }
    }
}

/// One integer of an id or count column: a smart integer from protocol 7 on, a
/// 16-bit one before.
pub open spec fn int_at(s: Seq<u8>, pos: int, smart: bool) -> Option<(u32, int)> {
    if smart {
        if 0 <= pos < s.len() && pos + smart_width(s, pos) <= s.len() {
            Some((smart_value(s, pos) as u32, pos + smart_width(s, pos)))
        } else {
            None
        }
    } else {
        if 0 <= pos && pos + 2 <= s.len() {
            Some((be_u16_at(s, pos) as u32, pos + 2))
        } else {
            None
        }
    }
}

/// `n` integers in a row from `pos`, and the position after them.
pub open spec fn ints_at(s: Seq<u8>, pos: int, n: nat, smart: bool) -> Option<(Seq<u32>, int)>
    decreases n,
{
    if n == 0 {
        Some((Seq::empty(), pos))
    } else {
        match int_at(s, pos, smart) {
            None => None,
            Some((v, p)) => match ints_at(s, p, (n - 1) as nat, smart) {
                None => None,
                Some((vs, q)) => Some((seq![v] + vs, q)),
            },
        }
    }
}

pub open spec fn glue_ints(pre: Seq<u32>, r: Option<(Seq<u32>, int)>) -> Option<(Seq<u32>, int)> {
    match r {
        None => None,
        Some((vs, q)) => Some((pre + vs, q)),
    }
}

/// One group of integers per count, in a row from `pos`.
pub open spec fn groups_at(s: Seq<u8>, pos: int, counts: Seq<u32>, smart: bool) -> Option<(Seq<Seq<u32>>, int)>
    decreases counts.len(),
{
    if counts.len() == 0 {
        Some((Seq::empty(), pos))
    } else {
        match ints_at(s, pos, counts[0] as nat, smart) {
            None => None,
            Some((g, p)) => match groups_at(s, p, counts.subrange(1, counts.len() as int), smart) {
                None => None,
                Some((gs, q)) => Some((seq![g] + gs, q)),
            },
        }
    }
}

pub open spec fn glue_groups(pre: Seq<Seq<u32>>, r: Option<(Seq<Seq<u32>>, int)>) -> Option<(Seq<Seq<u32>>, int)> {
    match r {
        None => None,
        Some((gs, q)) => Some((pre + gs, q)),
    }
}

/// The wrapping sum of the first `n` deltas.
pub open spec fn cum(d: Seq<u32>, n: nat) -> u32
    decreases n,
{
    if n == 0 {
        0
    } else {
        wrapping_add(cum(d, (n - 1) as nat), d[n - 1])
    }
}

/// Absolute values from deltas: element `k` is the sum of the first `k + 1`.
pub open spec fn cumsums(d: Seq<u32>) -> Seq<u32> {
    Seq::new(d.len(), |k: int| cum(d, (k + 1) as nat))
}

/// Where the fixed-width columns of a metadata table start, once its id column has
/// been read.
pub struct Columns {
    pub names: int,
    pub crcs: int,
    pub hashes: int,
    pub whirlpools: int,
    pub versions: int,
    pub end: int,
}

pub open spec fn columns(flags: u8, start: int, n: int) -> Columns {
    let pos_crcs = if flags & 1u8 != 0 { start + 4 * n } else { start };
    let pos_hashes = pos_crcs + 4 * n;
    let pos_whirl = if flags & 8u8 != 0 { pos_hashes + 4 * n } else { pos_hashes };
    let pos_codec_end = if flags & 2u8 != 0 { pos_whirl + 64 * n } else { pos_whirl };
    let pos_versions = if flags & 4u8 != 0 { pos_codec_end + 8 * n } else { pos_codec_end };
    Columns { names: start, crcs: pos_crcs, hashes: pos_hashes, whirlpools: pos_whirl, versions: pos_versions, end: pos_versions + 4 * n }
}

/// Descriptor `k` of a table whose columns are at `c`.
pub open spec fn entry(
    s: Seq<u8>,
    flags: u8,
    c: Columns,
    ids: Seq<u32>,
    counts: Seq<u32>,
    group: Seq<u32>,
    k: int,
) -> ArchiveMetadataView {
    ArchiveMetadataView {
        id: cum(ids, (k + 1) as nat),
        name_hash: if flags & 1u8 != 0 { (be_u32_at(s, c.names + 4 * k) as u32) as i32 } else { 0 },
        crc: be_u32_at(s, c.crcs + 4 * k) as u32,
        hash: if flags & 8u8 != 0 { (be_u32_at(s, c.hashes + 4 * k) as u32) as i32 } else { 0 },
        whirlpool: if flags & 2u8 != 0 {
            s.subrange(c.whirlpools + 64 * k, c.whirlpools + 64 * k + 64)
        } else {
            Seq::new(64, |i: int| 0u8)
        },
        version: be_u32_at(s, c.versions + 4 * k) as u32,
        entry_count: counts[k] as usize,
        valid_ids: cumsums(group),
    }
}

/// The descriptors that a metadata table lists, in order; `None` where the bytes
/// end before the table does.
pub open spec fn metadata_spec(s: Seq<u8>) -> Option<Seq<ArchiveMetadataView>> {
    if s.len() < 1 {
        None
    } else {
        let protocol = s[0];
        let smart = protocol >= 7;
        let pos_flags: int = if protocol >= 6 { 5 } else { 1 };
        if s.len() < pos_flags + 1 {
            None
        } else {
            let flags = s[pos_flags];
            match int_at(s, pos_flags + 1, smart) {
                None => None,
                Some((count, pos_ids)) => match ints_at(s, pos_ids, count as nat, smart) {
                    None => None,
                    Some((ids, pos_names)) => {
                        let c = columns(flags, pos_names, count as int);
                        if c.end > s.len() {
                            None
                        } else {
                            match ints_at(s, c.end, count as nat, smart) {
                                None => None,
                                Some((counts, pos_groups)) => match groups_at(s, pos_groups, counts, smart) {
                                    None => None,
                                    Some((groups, _)) => Some(
                                        Seq::new(
                                            count as nat,
                                            |k: int| entry(s, flags, c, ids, counts, groups[k], k),
                                        ),
                                    ),
                                },
                            }
                        }
                    },
                },
            }
        }
    }
}


fn read_int(b: &[u8], pos: usize, smart: bool) -> (r: Option<(u32, usize)>)
    ensures
        match int_at(b@, pos as int, smart) {
            Some((v, p)) => r matches Some(x) && x.0 == v && x.1 == p,
            None => r is None,
        },
{
    let _ = b.len();
    if smart {
        read_u32_smart(b, pos)
    } else {
        match read_u16(b, pos) {
            Some(v) => Some((v as u32, pos + 2)),
            None => None,
        }
    }
}

proof fn lemma_int_at_advances(s: Seq<u8>, pos: int, smart: bool)
    ensures
        int_at(s, pos, smart) matches Some((v, p)) ==> pos < p <= s.len(),
{
}

proof fn lemma_ints_len(s: Seq<u8>, pos: int, n: nat, smart: bool)
    ensures
        ints_at(s, pos, n, smart) matches Some((vs, p)) ==> vs.len() == n,
    decreases n,
{
    if n > 0 {
        if let Some((v, p)) = int_at(s, pos, smart) {
            lemma_ints_len(s, p, (n - 1) as nat, smart);
        }
    }
}

fn read_ints(b: &[u8], pos: usize, n: u32, smart: bool) -> (r: Option<(Vec<u32>, usize)>)
    ensures
        match ints_at(b@, pos as int, n as nat, smart) {
            Some((vs, p)) => r matches Some(x) && x.0@ == vs && x.1 == p,
            None => r is None,
        },
        r matches Some(x) ==> x.0@.len() == n,
{
    let mut out: Vec<u32> = Vec::new();
    let mut at = pos;
    let mut i: u32 = 0;
    while i < n
        invariant
            i <= n,
            ints_at(b@, pos as int, n as nat, smart) == glue_ints(
                out@,
                ints_at(b@, at as int, (n - i) as nat, smart),
            ),
        decreases n - i,
    {
        match read_int(b, at, smart) {
            None => return None,
            Some((v, p)) => {
                let ghost old_out = out@;
                out.push(v);
                proof {
                    let rest = ints_at(b@, p as int, (n - i - 1) as nat, smart);
                    if rest is Some {
                        assert(old_out + (seq![v] + rest->Some_0.0) == out@ + rest->Some_0.0);
                    }
                }
                at = p;
            },
        }
        i = i + 1;
    }
    assert(out@ + Seq::<u32>::empty() == out@);
    proof {
        lemma_ints_len(b@, pos as int, n as nat, smart);
    }
    Some((out, at))
}

fn cumulate(d: &Vec<u32>) -> (r: Vec<u32>)
    ensures
        r@ == cumsums(d@),
{
    let mut out: Vec<u32> = Vec::new();
    let mut acc: u32 = 0;
    let mut i: usize = 0;
    while i < d.len()
        invariant
            i <= d@.len(),
            acc == cum(d@, i as nat),
            out@.len() == i,
            forall|j: int| 0 <= j < i ==> #[trigger] out@[j] == cum(d@, (j + 1) as nat),
        decreases d@.len() - i,
    {
        acc = acc.wrapping_add(d[i]);
        out.push(acc);
        i = i + 1;
    }
    assert(out@ =~= cumsums(d@));
    out
}

/// `p + n * w` when it is at most `len`.
fn advance(p: usize, n: u32, w: usize, len: usize) -> (r: Option<usize>)
    ensures
        p + n * w <= len ==> r == Some((p + n * w) as usize),
        p + n * w > len ==> r is None,
{
    match (n as usize).checked_mul(w) {
        None => {
            assert(n * w >= 0) by (nonlinear_arith)
                requires
                    n >= 0,
                    w >= 0,
            ;
            None
        },
        Some(m) => match p.checked_add(m) {
            Some(q) => if q <= len {
                Some(q)
            } else {
                None
            },
            None => None,
        },
    }
}

fn word_at(b: &[u8], pos: usize) -> (r: u32)
    requires
        pos + 4 <= b@.len(),
    ensures
        r as int == be_u32_at(b@, pos as int),
{
    match read_u32(b, pos) {
        Some(v) => v,
        None => 0,
    }
}

/// The starts of the crc, hash, whirlpool and version columns and the end of the
/// last, when it lies within `len` bytes.
fn locate_columns(flags: u8, pos_names: usize, count: u32, len: usize) -> (r: Option<(usize, usize, usize, usize, usize)>)
    ensures
        ({
            let c = columns(flags, pos_names as int, count as int);
            c.end <= len ==> (r matches Some(x) && x.0 == c.crcs && x.1 == c.hashes && x.2 == c.whirlpools
                && x.3 == c.versions && x.4 == c.end)
        }),
        columns(flags, pos_names as int, count as int).end > len ==> r is None,
{
    let pos_crcs = if flags & 1u8 != 0 {
        match advance(pos_names, count, 4, len) {
            Some(v) => v,
            None => return None,
        }
    } else {
        pos_names
    };
    let pos_hashes = match advance(pos_crcs, count, 4, len) {
        Some(v) => v,
        None => return None,
    };
    let pos_whirl = if flags & 8u8 != 0 {
        match advance(pos_hashes, count, 4, len) {
            Some(v) => v,
            None => return None,
        }
    } else {
        pos_hashes
    };
    let pos_codec_end = if flags & 2u8 != 0 {
        match advance(pos_whirl, count, 64, len) {
            Some(v) => v,
            None => return None,
        }
    } else {
        pos_whirl
    };
    let pos_versions = if flags & 4u8 != 0 {
        match advance(pos_codec_end, count, 8, len) {
            Some(v) => v,
            None => return None,
        }
    } else {
        pos_codec_end
    };
    let pos_counts = match advance(pos_versions, count, 4, len) {
        Some(v) => v,
        None => return None,
    };
    Some((pos_crcs, pos_hashes, pos_whirl, pos_versions, pos_counts))
}

/// Descriptor `k` of the table in `b`.
fn make_entry(
    b: &[u8],
    flags: u8,
    pos_names: usize,
    pos_crcs: usize,
    pos_hashes: usize,
    pos_whirl: usize,
    pos_versions: usize,
    pos_counts: usize,
    count: u32,
    k: usize,
    id: u32,
    entry_count: u32,
    group: &Vec<u32>,
    ids: Ghost<Seq<u32>>,
    counts: Ghost<Seq<u32>>,
) -> (r: ArchiveMetadata)
    requires
        ({
            let c = columns(flags, pos_names as int, count as int);
            c.crcs == pos_crcs && c.hashes == pos_hashes && c.whirlpools == pos_whirl && c.versions == pos_versions && c.end == pos_counts
        }),
        pos_counts <= b@.len(),
        k < count,
        id == cum(ids@, (k + 1) as nat),
        counts@.len() > k && counts@[k as int] == entry_count,
    ensures
        r@ == entry(b@, flags, columns(flags, pos_names as int, count as int), ids@, counts@, group@, k as int),
{
    assert(4 * k + 4 <= 4 * count) by (nonlinear_arith)
        requires
            k < count,
    ;
    assert(64 * k + 64 <= 64 * count) by (nonlinear_arith)
        requires
            k < count,
    ;
    let name_hash: i32 = if flags & 1u8 != 0 {
        word_at(b, pos_names + 4 * k) as i32
    } else {
        0
    };
    let crc = word_at(b, pos_crcs + 4 * k);
    let hash: i32 = if flags & 8u8 != 0 {
        word_at(b, pos_hashes + 4 * k) as i32
    } else {
        0
    };
    let whirlpool: Vec<u8> = if flags & 2u8 != 0 {
        vstd::slice::slice_to_vec(vstd::slice::slice_subrange(b, pos_whirl + 64 * k, pos_whirl + 64 * k + 64))
    } else {
        let z = vec![0u8; 64];
        assert(z@ =~= Seq::new(64, |i: int| 0u8));
        z
    };
    let version = word_at(b, pos_versions + 4 * k);
    let valid_ids = cumulate(group);
    ArchiveMetadata {
        id,
        name_hash,
        crc,
        hash,
        whirlpool,
        version,
        entry_count: entry_count as usize,
        valid_ids,
    }
}

/// The descriptors of every archive of an index, in the order the table lists them.
pub struct IndexMetadata(Vec<ArchiveMetadata>);

impl View for IndexMetadata {
    type V = Seq<ArchiveMetadataView>;

    closed spec fn view(&self) -> Seq<ArchiveMetadataView> {
        self.0@.map_values(|a: ArchiveMetadata| a@)
    }
}

impl Default for IndexMetadata {
    fn default() -> (r: Self)
        ensures
            r@ == Seq::<ArchiveMetadataView>::empty(),
    {
        let r = IndexMetadata(Vec::new());
        assert(r@ =~= Seq::<ArchiveMetadataView>::empty());
        r
    }
}

impl IndexMetadata {
    /// Parses a decoded reference-table payload.
    pub fn from_buffer(buffer: Buffer<Decoded>) -> (r: Result<IndexMetadata, CacheError>)
        ensures
            match metadata_spec(buffer@.bytes) {
                Some(m) => r matches Ok(x) && x@ == m,
                None => r matches Err(e) && e == CacheError::Parse(ParseError::Truncated),
            },
    {
        IndexMetadata::from_slice(buffer.as_slice())
    }

    /// Parses the bytes of a reference-table payload.
    #[verifier::rlimit(40)]
    pub fn from_slice(b: &[u8]) -> (r: Result<IndexMetadata, CacheError>)
        ensures
            match metadata_spec(b@) {
                Some(m) => r matches Ok(x) && x@ == m,
                None => r matches Err(e) && e == CacheError::Parse(ParseError::Truncated),
            },
    {
        let fail = CacheError::Parse(ParseError::Truncated);
        let len = b.len();
        let protocol = match read_u8(b, 0) {
            Some(v) => v,
            None => return Err(fail),
        };
        let smart = protocol >= 7;
        let pos_flags: usize = if protocol >= 6 { 5 } else { 1 };
        let flags = match read_u8(b, pos_flags) {
            Some(v) => v,
            None => return Err(fail),
        };
        let (count, pos_ids) = match read_int(b, pos_flags + 1, smart) {
            Some(x) => x,
            None => return Err(fail),
        };
        let (ids, pos_names) = match read_ints(b, pos_ids, count, smart) {
            Some(x) => x,
            None => return Err(fail),
        };
        let ghost c = columns(flags, pos_names as int, count as int);
        let identified = flags & 1u8 != 0;
        let has_whirlpool = flags & 2u8 != 0;
        let has_hash = flags & 8u8 != 0;
        let (pos_crcs, pos_hashes, pos_whirl, pos_versions, pos_counts) = match locate_columns(flags, pos_names, count, len) {
            Some(x) => x,
            None => return Err(fail),
        };
        let (counts, pos_groups) = match read_ints(b, pos_counts, count, smart) {
            Some(x) => x,
            None => return Err(fail),
        };
        let mut archives: Vec<ArchiveMetadata> = Vec::new();
        let mut q = pos_groups;
        let mut id: u32 = 0;
        let mut k: usize = 0;
        let ghost mut done: Seq<Seq<u32>> = Seq::empty();
        let n = count as usize;
        proof {
            assert(counts@.subrange(0, n as int) =~= counts@);
            assert(Seq::<Seq<u32>>::empty() + groups_at(b@, pos_groups as int, counts@, smart)->Some_0.0
                =~= groups_at(b@, pos_groups as int, counts@, smart)->Some_0.0);
        }
        while k < n
            invariant
                b@.len() >= 1,
                protocol == b@[0],
                smart == (protocol >= 7),
                pos_flags == (if protocol >= 6 { 5int } else { 1int }),
                pos_flags + 1 <= b@.len(),
                flags == b@[pos_flags as int],
                int_at(b@, pos_flags + 1, smart) == Some((count, pos_ids as int)),
                ints_at(b@, pos_ids as int, count as nat, smart) == Some((ids@, pos_names as int)),
                ints_at(b@, pos_counts as int, count as nat, smart) == Some((counts@, pos_groups as int)),
                n == count,
                ids@.len() == n,
                counts@.len() == n,
                k <= n,
                len == b@.len(),
                pos_counts <= len,
                c.end == pos_counts && c.names == pos_names && c.crcs == pos_crcs && c.hashes == pos_hashes && c.whirlpools == pos_whirl
                    && c.versions == pos_versions,
                c == columns(flags, pos_names as int, count as int),
                id == cum(ids@, k as nat),
                done.len() == k,
                archives@.len() == k,
                groups_at(b@, pos_groups as int, counts@, smart) == glue_groups(
                    done,
                    groups_at(b@, q as int, counts@.subrange(k as int, n as int), smart),
                ),
                forall|j: int|
                    0 <= j < k ==> #[trigger] archives@[j]@ == entry(b@, flags, c, ids@, counts@, done[j], j),
            decreases n - k,
        {
            let (group, nq) = match read_ints(b, q, counts[k], smart) {
                Some(x) => x,
                None => {
                    proof {
                        let tail = counts@.subrange(k as int, n as int);
                        assert(tail.len() > 0);
                        assert(tail[0] == counts@[k as int]);
                        assert(groups_at(b@, q as int, tail, smart) is None);
                        assert(groups_at(b@, pos_groups as int, counts@, smart) is None);
                        assert(int_at(b@, pos_flags + 1, smart) == Some((count, pos_ids as int)));
                        assert(ints_at(b@, pos_ids as int, count as nat, smart) == Some((ids@, pos_names as int)));
                        assert(ints_at(b@, pos_counts as int, count as nat, smart) == Some((counts@, pos_groups as int)));
                        assert(metadata_spec(b@) is None);
                    }
                    return Err(CacheError::Parse(ParseError::Truncated));
                },
            };
            proof {
                let tail = counts@.subrange(k as int, n as int);
                assert(tail[0] == counts@[k as int]);
                assert(tail.subrange(1, tail.len() as int) =~= counts@.subrange(k + 1, n as int));
                let rest = groups_at(b@, nq as int, counts@.subrange(k + 1, n as int), smart);
                if rest is Some {
                    assert(done + (seq![group@] + rest->Some_0.0) == done.push(group@) + rest->Some_0.0);
                }
            }
            id = id.wrapping_add(ids[k]);
            let m = make_entry(
                b,
                flags,
                pos_names,
                pos_crcs,
                pos_hashes,
                pos_whirl,
                pos_versions,
                pos_counts,
                count,
                k,
                id,
                counts[k],
                &group,
                Ghost(ids@),
                Ghost(counts@),
            );
            archives.push(m);
            proof {
                done = done.push(group@);
            }
            q = nq;
            k = k + 1;
        }
        proof {
            assert(counts@.subrange(n as int, n as int) =~= Seq::<u32>::empty());
            assert(done + Seq::<Seq<u32>>::empty() == done);
        }
        let r = IndexMetadata(archives);
        assert(r@ =~= Seq::new(count as nat, |j: int| entry(b@, flags, c, ids@, counts@, done[j], j)));
        Ok(r)
    }

    pub fn len(&self) -> (r: usize)
        ensures
            r == self@.len(),
    {
        self.0.len()
    }

    /// The descriptor at position `index`.
    pub fn get(&self, index: usize) -> (r: Option<&ArchiveMetadata>)
        ensures
            index < self@.len() ==> (r matches Some(a) && a@ == self@[index as int]),
            index >= self@.len() ==> r is None,
    {
        if index < self.0.len() {
            Some(&self.0[index])
        } else {
            None
        }
    }

    /// The descriptors in table order, one at a time.
    pub fn iter(&self) -> (r: std::slice::Iter<'_, ArchiveMetadata>)
        ensures
            r.remaining().len() == self@.len(),
            forall|i: int| 0 <= i < self@.len() ==> (#[trigger] r.remaining()[i])@ == self@[i],
    {
        self.0.as_slice().iter()
    }

    /// The descriptors in table order.
    pub fn as_slice(&self) -> (r: &[ArchiveMetadata])
        ensures
            r@.map_values(|a: ArchiveMetadata| a@) == self@,
    {
        self.0.as_slice()
    }
}


/// Parsing is a function of the bytes alone: equal bytes give equal metadata.
pub proof fn lemma_metadata_deterministic(a: Seq<u8>, b: Seq<u8>)
    requires
        a == b,
    ensures
        metadata_spec(a) == metadata_spec(b),
{
}

} // verus!
