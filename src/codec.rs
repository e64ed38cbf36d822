//! The archive frame: compression, optional XTEA enciphering and an optional
//! trailing version, around a payload.
use vstd::prelude::*;

use std::io::{Read, Write};
use std::marker::PhantomData;

use crate::error::{CacheError, CompressionUnsupported, ParseError};
use crate::parse::{be_u16_at, be_u32_at, extend_bytes, read_u16, read_u32, read_u8};
use crate::xtea::{
    be_byte, decipher, deciphered, encipher, enciphered, lemma_be_bytes,
    lemma_decipher_encipher, lemma_map_blocks_append,
};

verus! {

/// How the payload of a frame is compressed; the tag is the frame's first byte.
#[derive(Copy, Clone, Eq, PartialEq, Ord, PartialOrd, Hash, Debug, Structural)]
pub enum Compression {
    Uncompressed,
    Bzip2,
    Gzip,
    Lzma,
}

impl Compression {
    pub open spec fn tag(self) -> u8 {
        match self {
            Compression::Uncompressed => 0,
            Compression::Bzip2 => 1,
            Compression::Gzip => 2,
            Compression::Lzma => 3,
        }
    }
}

/// The compression a frame tag names, if any.
pub open spec fn compression_of(tag: u8) -> Option<Compression> {
    if tag == 0 {
        Some(Compression::Uncompressed)
    } else if tag == 1 {
        Some(Compression::Bzip2)
    } else if tag == 2 {
        Some(Compression::Gzip)
    } else if tag == 3 {
        Some(Compression::Lzma)
    } else {
        None
    }
}

impl Default for Compression {
    fn default() -> (r: Self)
        ensures
            r == Compression::Uncompressed,
    {
        Compression::Uncompressed
    }
}

impl From<Compression> for u8 {
    fn from(compression: Compression) -> (r: u8) {
        match compression {
            Compression::Uncompressed => 0,
            Compression::Bzip2 => 1,
            Compression::Gzip => 2,
            Compression::Lzma => 3,
        }
    }
}

impl vstd::std_specs::convert::FromSpecImpl<Compression> for u8 {
    open spec fn obeys_from_spec() -> bool {
        true
    }

    open spec fn from_spec(compression: Compression) -> u8 {
        compression.tag()
    }
}

impl TryFrom<u8> for Compression {
    type Error = CompressionUnsupported;

    fn try_from(tag: u8) -> (r: Result<Compression, CompressionUnsupported>) {
        match tag {
            0 => Ok(Compression::Uncompressed),
            1 => Ok(Compression::Bzip2),
            2 => Ok(Compression::Gzip),
            3 => Ok(Compression::Lzma),
            _ => Err(CompressionUnsupported(tag)),
        }
    }
}

impl vstd::std_specs::convert::TryFromSpecImpl<u8> for Compression {
    open spec fn obeys_try_from_spec() -> bool {
        true
    }

    open spec fn try_from_spec(tag: u8) -> Result<Compression, CompressionUnsupported> {
        match compression_of(tag) {
            Some(c) => Ok(c),
            None => Err(CompressionUnsupported(tag)),
        }
    }
}

/// State marker: the bytes are a frame as stored on disk.
#[derive(Debug)]
pub struct Encoded;

/// State marker: the bytes are a plain payload.
#[derive(Debug)]
pub struct Decoded;

/// Bytes with the settings that encode or decode them; `State` says which side of
/// the codec they are on.
#[derive(Debug)]
pub struct Buffer<State> {
    pub compression: Compression,
    pub buffer: Vec<u8>,
    pub version: Option<i16>,
    pub keys: Option<[u32; 4]>,
    pub state: PhantomData<State>,
}

/// What a buffer holds, as values.
pub struct BufferView {
    pub compression: Compression,
    pub bytes: Seq<u8>,
    pub version: Option<i16>,
    pub keys: Option<Seq<u32>>,
}

pub open spec fn keys_view(keys: Option<[u32; 4]>) -> Option<Seq<u32>> {
    match keys {
        Some(k) => Some(k@),
        None => None,
    }
}

impl<State> View for Buffer<State> {
    type V = BufferView;

    open spec fn view(&self) -> BufferView {
        BufferView {
            compression: self.compression,
            bytes: self.buffer@,
            version: self.version,
            keys: keys_view(self.keys),
        }
    }
}

impl<State> Default for Buffer<State> {
    fn default() -> (r: Self)
        ensures
            r@ == (BufferView {
                compression: Compression::Uncompressed,
                bytes: Seq::empty(),
                version: None,
                keys: None,
            }),
    {
        Buffer {
            compression: Compression::Uncompressed,
            buffer: Vec::new(),
            version: None,
            keys: None,
            state: PhantomData,
        }
    }
}

impl<State> From<Vec<u8>> for Buffer<State> {
    fn from(buffer: Vec<u8>) -> (r: Self) {
        Buffer { compression: Compression::Uncompressed, buffer, version: None, keys: None, state: PhantomData }
    }
}

impl<State> vstd::std_specs::convert::FromSpecImpl<Vec<u8>> for Buffer<State> {
    open spec fn obeys_from_spec() -> bool {
        true
    }

    open spec fn from_spec(buffer: Vec<u8>) -> Self {
        Buffer { compression: Compression::Uncompressed, buffer, version: None, keys: None, state: PhantomData }
    }
}

impl<State> Buffer<State> {
    /// A buffer over `bytes`: no compression, no version, no keys.
    pub fn new(bytes: Vec<u8>) -> (r: Self)
        ensures
            r@ == (BufferView { compression: Compression::Uncompressed, bytes: bytes@, version: None, keys: None }),
    {
        Buffer { compression: Compression::Uncompressed, buffer: bytes, version: None, keys: None, state: PhantomData }
    }

    /// The same buffer with another compression.
    pub fn with_compression(self, compression: Compression) -> (r: Self)
        ensures
            r@ == (BufferView { compression, ..self@ }),
    {
        Buffer { compression, ..self }
    }

    /// The same buffer with a version.
    pub fn with_version(self, version: i16) -> (r: Self)
        ensures
            r@ == (BufferView { version: Some(version), ..self@ }),
    {
        Buffer { version: Some(version), ..self }
    }

    /// The same buffer with XTEA keys.
    pub fn with_xtea_keys(self, keys: [u32; 4]) -> (r: Self)
        ensures
            r@ == (BufferView { keys: Some(keys@), ..self@ }),
    {
        Buffer { keys: Some(keys), ..self }
    }

    /// The raw bytes, giving up the buffer.
    pub fn finalize(self) -> (r: Vec<u8>)
        ensures
            r@ == self@.bytes,
    {
        self.buffer
    }

    pub fn as_slice(&self) -> (r: &[u8])
        ensures
            r@ == self@.bytes,
    {
        self.buffer.as_slice()
    }

    pub fn len(&self) -> (r: usize)
        ensures
            r == self@.bytes.len(),
    {
        self.buffer.len()
    }

    pub fn compression(&self) -> (r: Compression)
        ensures
            r == self@.compression,
    {
        self.compression
    }

    pub fn version(&self) -> (r: Option<i16>)
        ensures
            r == self@.version,
    {
        self.version
    }
}


/// What bzip2's encoder writes for `data`.
pub uninterp spec fn bzip2_stream(data: Seq<u8>) -> Seq<u8>;

/// Everything bzip2's decoder yields from `data`, or `None` where it reports an error.
pub uninterp spec fn bzip2_unpacked(data: Seq<u8>) -> Option<Seq<u8>>;

/// What gzip's encoder writes for `data`.
pub uninterp spec fn gzip_stream(data: Seq<u8>) -> Seq<u8>;

/// Everything gzip's decoder yields from `data`, or `None` where it reports an error.
pub uninterp spec fn gzip_unpacked(data: Seq<u8>) -> Option<Seq<u8>>;

/// What the LZMA encoder writes for `data`, with no size in the stream header.
pub uninterp spec fn lzma_stream(data: Seq<u8>) -> Seq<u8>;

/// What the LZMA decoder yields from a header-less stream told to hold `len` bytes,
/// or `None` where it reports an error.
pub uninterp spec fn lzma_unpacked(data: Seq<u8>, len: nat) -> Option<Seq<u8>>;

/// The stream magic of bzip2 at block size 1: "BZh1".
pub open spec fn bzip2_magic() -> Seq<u8> {
    seq![0x42u8, 0x5Au8, 0x68u8, 0x31u8]
}

/// Relies on bzip2's `write::BzEncoder` at `Compression::fast()` (block size 1),
/// writing into a `Vec`, which never fails: the stream starts with the magic "BZh1"
/// and its decoder gives the input back.
#[verifier::external_body]
fn compress_bzip2(data: &[u8]) -> (r: Result<Vec<u8>, std::io::Error>)
    ensures
        r is Ok,
        r matches Ok(v) ==> v@ == bzip2_stream(data@) && v@.len() >= 4 && v@.subrange(0, 4)
            == bzip2_magic() && bzip2_unpacked(v@) == Some(data@),
{
    let mut compressor = bzip2::write::BzEncoder::new(Vec::with_capacity(data.len()), bzip2::Compression::fast());
    compressor.write_all(data)?;
    compressor.finish()
}

/// Relies on bzip2's `read::BzDecoder` and `read_to_end`: all that the decoder
/// yields, or its error.
#[verifier::external_body]
fn decompress_bzip2(data: &[u8]) -> (r: Result<Vec<u8>, std::io::Error>)
    ensures
        match bzip2_unpacked(data@) {
            Some(u) => r matches Ok(v) && v@ == u,
            None => r is Err,
        },
{
    let mut decompressor = bzip2::read::BzDecoder::new(data);
    let mut out = Vec::new();
    decompressor.read_to_end(&mut out)?;
    Ok(out)
}

/// Relies on flate2's `write::GzEncoder` at `Compression::best()`, writing into a
/// `Vec`, which never fails: its decoder gives the input back.
#[verifier::external_body]
fn compress_gzip(data: &[u8]) -> (r: Result<Vec<u8>, std::io::Error>)
    ensures
        r is Ok,
        r matches Ok(v) ==> v@ == gzip_stream(data@) && gzip_unpacked(v@) == Some(data@),
{
    let mut compressor = flate2::write::GzEncoder::new(Vec::with_capacity(data.len()), flate2::Compression::best());
    compressor.write_all(data)?;
    compressor.finish()
}

/// Relies on flate2's `bufread::GzDecoder` and `read_to_end`: all that the decoder
/// yields, or its error.
#[verifier::external_body]
fn decompress_gzip(data: &[u8]) -> (r: Result<Vec<u8>, std::io::Error>)
    ensures
        match gzip_unpacked(data@) {
            Some(u) => r matches Ok(v) && v@ == u,
            None => r is Err,
        },
{
    let mut decompressor = flate2::bufread::GzDecoder::new(data);
    let mut out = Vec::new();
    decompressor.read_to_end(&mut out)?;
    Ok(out)
}

/// Relies on lzma-rs's `lzma_compress_with_options` with
/// `UnpackedSize::SkipWritingToHeader`, writing into a `Vec`, which never fails:
/// decoding with the input's length gives the input back.
#[verifier::external_body]
fn compress_lzma(data: &[u8]) -> (r: Result<Vec<u8>, std::io::Error>)
    ensures
        r is Ok,
        r matches Ok(v) ==> v@ == lzma_stream(data@) && lzma_unpacked(v@, data@.len()) == Some(data@),
{
    let mut input = std::io::BufReader::new(data);
    let mut output = Vec::with_capacity(data.len());
    let options = lzma_rs::compress::Options { unpacked_size: lzma_rs::compress::UnpackedSize::SkipWritingToHeader };
    lzma_rs::lzma_compress_with_options(&mut input, &mut output, &options)?;
    Ok(output)
}

/// Relies on lzma-rs's `lzma_decompress_with_options` with
/// `UnpackedSize::UseProvided(Some(len))`: what it writes, or its error.
#[verifier::external_body]
fn decompress_lzma(data: &[u8], len: usize) -> (r: Result<Vec<u8>, lzma_rs::error::Error>)
    ensures
        match lzma_unpacked(data@, len as nat) {
            Some(u) => r matches Ok(v) && v@ == u,
            None => r is Err,
        },
{
    let mut input = std::io::BufReader::new(data);
    let mut output = Vec::with_capacity(len);
    let options = lzma_rs::decompress::Options {
        unpacked_size: lzma_rs::decompress::UnpackedSize::UseProvided(Some(len as u64)),
        ..lzma_rs::decompress::Options::default()
    };
    lzma_rs::lzma_decompress_with_options(&mut input, &mut output, &options)?;
    Ok(output)
}

pub open spec fn be32_bytes(x: u32) -> Seq<u8> {
    seq![be_byte(x, 0), be_byte(x, 1), be_byte(x, 2), be_byte(x, 3)]
}

pub open spec fn be16_bytes(v: i16) -> Seq<u8> {
    seq![((v as u16) / 256) as u8, ((v as u16) % 256) as u8]
}

/// The compressed form of a payload as a frame stores it: bzip2 without its magic.
pub open spec fn packed(c: Compression, p: Seq<u8>) -> Seq<u8> {
    match c {
        Compression::Uncompressed => p,
        Compression::Bzip2 => bzip2_stream(p).subrange(4, bzip2_stream(p).len() as int),
        Compression::Gzip => gzip_stream(p),
        Compression::Lzma => lzma_stream(p),
    }
}

pub open spec fn ciphered(s: Seq<u8>, keys: Option<Seq<u32>>) -> Seq<u8> {
    match keys {
        Some(k) => enciphered(s, k),
        None => s,
    }
}

pub open spec fn unciphered(s: Seq<u8>, keys: Option<Seq<u32>>) -> Seq<u8> {
    match keys {
        Some(k) => deciphered(s, k),
        None => s,
    }
}

/// A frame: tag, body length, the payload length when compressed, body, version.
pub open spec fn frame(c: Compression, plen: nat, body: Seq<u8>, version: Option<i16>) -> Seq<u8> {
    seq![c.tag()] + be32_bytes(body.len() as u32) + (if c == Compression::Uncompressed {
        Seq::empty()
    } else {
        be32_bytes(plen as u32)
    }) + body + match version {
        Some(v) => be16_bytes(v),
        None => Seq::empty(),
    }
}

/// The frame that encoding payload `p` gives.
pub open spec fn encoded(c: Compression, p: Seq<u8>, version: Option<i16>, keys: Option<Seq<u32>>) -> Seq<u8> {
    frame(c, p.len(), ciphered(packed(c, p), keys), version)
}

/// The parts of a frame: compression, body, declared payload length, version.
pub struct FrameParts {
    pub compression: Compression,
    pub body: Seq<u8>,
    pub declared: nat,
    pub version: Option<i16>,
}

/// A version trails the body when at least two bytes follow it.
pub open spec fn version_at(rest: Seq<u8>, end: int) -> Option<i16> {
    if rest.len() - end >= 2 {
        Some((be_u16_at(rest, end) as u16) as i16)
    } else {
        None
    }
}

/// The parts of frame `b`, the bytes after the five-byte header deciphered first
/// when there are keys.
pub open spec fn unframed(b: Seq<u8>, keys: Option<Seq<u32>>) -> Result<FrameParts, CacheError> {
    if b.len() < 1 {
        Err(CacheError::Parse(ParseError::Truncated))
    } else {
        match compression_of(b[0]) {
            None => Err(CacheError::Compression(CompressionUnsupported(b[0]))),
            Some(c) => if b.len() < 5 {
                Err(CacheError::Parse(ParseError::Truncated))
            } else {
                let clen = be_u32_at(b, 1);
                let rest = unciphered(b.subrange(5, b.len() as int), keys);
                let start: int = if c == Compression::Uncompressed { 0 } else { 4 };
                if rest.len() < start + clen {
                    Err(CacheError::Parse(ParseError::Truncated))
                } else {
                    Ok(FrameParts {
                        compression: c,
                        body: rest.subrange(start, start + clen),
                        declared: if c == Compression::Uncompressed { clen as nat } else { be_u32_at(rest, 0) as nat },
                        version: version_at(rest, start + clen),
                    })
                }
            },
        }
    }
}

/// The payload that the decompressor named by `c` yields for `body`, when it
/// yields exactly `declared` bytes without error.
pub open spec fn unpacked(c: Compression, body: Seq<u8>, declared: nat) -> Option<Seq<u8>> {
    let u = match c {
        Compression::Uncompressed => Some(body),
        Compression::Bzip2 => bzip2_unpacked(bzip2_magic() + body),
        Compression::Gzip => gzip_unpacked(body),
        Compression::Lzma => lzma_unpacked(body, declared),
    };
    match u {
        Some(p) => if c == Compression::Uncompressed || p.len() == declared { Some(p) } else { None },
        None => None,
    }
}

/// What decoding frame `b` gives when it succeeds: compression, payload, version.
pub open spec fn decoded(b: Seq<u8>, keys: Option<Seq<u32>>) -> Option<(Compression, Seq<u8>, Option<i16>)> {
    match unframed(b, keys) {
        Err(_) => None,
        Ok(f) => match unpacked(f.compression, f.body, f.declared) {
            Some(p) => Some((f.compression, p, f.version)),
            None => None,
        },
    }
}

/// Settings under which a frame decodes to what was encoded. The cipher runs over
/// the body alone when encoding and over everything after the five-byte header when
/// decoding, so with keys this holds for an uncompressed frame whose version, if
/// any, stays outside the last whole 8-byte block.
pub open spec fn round_trips(c: Compression, plen: nat, version: Option<i16>, keys: Option<Seq<u32>>) -> bool {
    keys is None || (c == Compression::Uncompressed && (version is None || plen % 8 < 6))
}

fn push_u32(out: &mut Vec<u8>, x: u32)
    ensures
        final(out)@ == old(out)@ + be32_bytes(x),
{
    out.push((x / 0x100_0000) as u8);
    out.push(((x / 0x1_0000) % 0x100) as u8);
    out.push(((x / 0x100) % 0x100) as u8);
    out.push((x % 0x100) as u8);
    assert(final(out)@ =~= old(out)@ + be32_bytes(x));
}

fn push_i16(out: &mut Vec<u8>, v: i16)
    ensures
        final(out)@ == old(out)@ + be16_bytes(v),
{
    let u = v as u16;
    out.push((u / 256) as u8);
    out.push((u % 256) as u8);
    assert(final(out)@ =~= old(out)@ + be16_bytes(v));
}


fn tag_of(c: Compression) -> (r: u8)
    ensures
        r == c.tag(),
        compression_of(r) == Some(c),
{
    match c {
        Compression::Uncompressed => 0,
        Compression::Bzip2 => 1,
        Compression::Gzip => 2,
        Compression::Lzma => 3,
    }
}

proof fn lemma_be16(v: i16)
    ensures
        be16_bytes(v).len() == 2,
        (be_u16_at(be16_bytes(v), 0) as u16) as i16 == v,
{
    let u = v as u16;
    assert(((u / 256) as u8) as int * 256 + ((u % 256) as u8) as int == u as int);
    assert(((v as u16) as i16) == v) by (bit_vector);
}

proof fn lemma_be32(x: u32)
    ensures
        be32_bytes(x).len() == 4,
        be_u32_at(be32_bytes(x), 0) == x,
{
    lemma_be_bytes(x);
}

/// The parts of a frame that encoding made.
#[verifier::rlimit(50)]
proof fn lemma_unframe_encoded(c: Compression, p: Seq<u8>, version: Option<i16>, keys: Option<Seq<u32>>)
    requires
        round_trips(c, p.len(), version, keys),
        p.len() <= u32::MAX,
        packed(c, p).len() <= u32::MAX,
    ensures
        unframed(encoded(c, p, version, keys), keys) == Ok::<FrameParts, CacheError>(
            FrameParts { compression: c, body: packed(c, p), declared: p.len(), version },
        ),
{
    let body = ciphered(packed(c, p), keys);
    assert(body.len() == packed(c, p).len());
    let b = encoded(c, p, version, keys);
    let vb: Seq<u8> = match version {
        Some(v) => be16_bytes(v),
        None => Seq::empty(),
    };
    let lb: Seq<u8> = if c == Compression::Uncompressed {
        Seq::empty()
    } else {
        be32_bytes(p.len() as u32)
    };
    lemma_be32(body.len() as u32);
    lemma_be32(p.len() as u32);
    let b5 = b.subrange(5, b.len() as int);
    assert(b5 =~= lb + body + vb);
    assert(be_u32_at(b, 1) == be_u32_at(be32_bytes(body.len() as u32), 0));
    let rest = unciphered(b5, keys);
    if keys is Some {
        let k = keys->Some_0;
        lemma_decipher_encipher(packed(c, p), k);
        assert(b5 =~= body + vb);
        lemma_map_blocks_append(body, vb, k, false);
        assert(rest == packed(c, p) + vb);
    } else {
        assert(rest == b5);
    }
    let start: int = if c == Compression::Uncompressed { 0 } else { 4 };
    assert(rest.subrange(start, start + body.len()) =~= packed(c, p));
    if c != Compression::Uncompressed {
        assert(be_u32_at(rest, 0) == be_u32_at(lb, 0));
    }
    match version {
        Some(v) => {
            lemma_be16(v);
            assert(rest.subrange(start + body.len(), rest.len() as int) =~= vb);
            assert(be_u16_at(rest, start + body.len()) == be_u16_at(vb, 0));
        },
        None => {},
    }
}

proof fn lemma_decoded_parts(b: Seq<u8>, keys: Option<Seq<u32>>, f: FrameParts)
    requires
        unframed(b, keys) == Ok::<FrameParts, CacheError>(f),
    ensures
        decoded(b, keys) == match unpacked(f.compression, f.body, f.declared) {
            Some(p) => Some((f.compression, p, f.version)),
            None => None,
        },
{
}

proof fn lemma_unpacked_packed(c: Compression, p: Seq<u8>)
    requires
        c == Compression::Bzip2 ==> bzip2_stream(p).len() >= 4 && bzip2_stream(p).subrange(0, 4)
            == bzip2_magic() && bzip2_unpacked(bzip2_stream(p)) == Some(p),
        c == Compression::Gzip ==> gzip_unpacked(gzip_stream(p)) == Some(p),
        c == Compression::Lzma ==> lzma_unpacked(lzma_stream(p), p.len()) == Some(p),
    ensures
        unpacked(c, packed(c, p), p.len()) == Some(p),
{
    if c == Compression::Bzip2 {
        assert(bzip2_magic() + packed(c, p) =~= bzip2_stream(p));
    }
}

/// With the facts that the encoders give, a frame made by encoding decodes to
/// what was encoded.
proof fn lemma_encoded_decodes(c: Compression, p: Seq<u8>, version: Option<i16>, keys: Option<Seq<u32>>)
    requires
        round_trips(c, p.len(), version, keys),
        p.len() <= u32::MAX,
        packed(c, p).len() <= u32::MAX,
        c == Compression::Bzip2 ==> bzip2_stream(p).len() >= 4 && bzip2_stream(p).subrange(0, 4)
            == bzip2_magic() && bzip2_unpacked(bzip2_stream(p)) == Some(p),
        c == Compression::Gzip ==> gzip_unpacked(gzip_stream(p)) == Some(p),
        c == Compression::Lzma ==> lzma_unpacked(lzma_stream(p), p.len()) == Some(p),
    ensures
        decoded(encoded(c, p, version, keys), keys) == Some((c, p, version)),
{
    lemma_unframe_encoded(c, p, version, keys);
    lemma_unpacked_packed(c, p);
    let b = encoded(c, p, version, keys);
    let f = FrameParts { compression: c, body: packed(c, p), declared: p.len(), version };
    lemma_decoded_parts(b, keys, f);
}

impl Buffer<Decoded> {
    /// Encodes the payload into a frame: tag, body length, payload length when
    /// compressed, the body (compressed, then enciphered when there are keys) and the
    /// version when there is one.
    pub fn encode(self) -> (r: Result<Buffer<Encoded>, CacheError>)
        ensures
            r matches Ok(e) ==> e@ == (BufferView {
                bytes: encoded(self@.compression, self@.bytes, self@.version, self@.keys),
                ..self@
            }),
            r is Ok <==> self@.bytes.len() <= u32::MAX && packed(self@.compression, self@.bytes).len()
                <= u32::MAX,
            r matches Err(e) ==> e == CacheError::Parse(ParseError::Oversized),
            round_trips(self@.compression, self@.bytes.len(), self@.version, self@.keys) ==> (r matches Ok(e) ==> decoded(
                e@.bytes,
                self@.keys,
            ) == Some((self@.compression, self@.bytes, self@.version))),
    {
        let plen = self.buffer.len();
        if plen > 0xFFFF_FFFF {
            return Err(CacheError::Parse(ParseError::Oversized));
        }
        let mut body: Vec<u8> = match self.compression {
            Compression::Uncompressed => vstd::slice::slice_to_vec(self.buffer.as_slice()),
            Compression::Bzip2 => match compress_bzip2(self.buffer.as_slice()) {
                Ok(v) => vstd::slice::slice_to_vec(vstd::slice::slice_subrange(v.as_slice(), 4, v.len())),
                Err(e) => return Err(CacheError::Io(e)),
            },
            Compression::Gzip => match compress_gzip(self.buffer.as_slice()) {
                Ok(v) => v,
                Err(e) => return Err(CacheError::Io(e)),
            },
            Compression::Lzma => match compress_lzma(self.buffer.as_slice()) {
                Ok(v) => v,
                Err(e) => return Err(CacheError::Io(e)),
            },
        };
        let ghost packed_body = body@;
        match self.keys {
            Some(k) => encipher(&mut body, &k),
            None => {},
        }
        let blen = body.len();
        if blen > 0xFFFF_FFFF {
            return Err(CacheError::Parse(ParseError::Oversized));
        }
        let mut out: Vec<u8> = Vec::new();
        out.push(tag_of(self.compression));
        push_u32(&mut out, blen as u32);
        if self.compression != Compression::Uncompressed {
            push_u32(&mut out, plen as u32);
        }
        extend_bytes(&mut out, body.as_slice());
        match self.version {
            Some(v) => push_i16(&mut out, v),
            None => {},
        }
        proof {
            let c = self.compression;
            let p = self.buffer@;
            assert(packed_body == packed(c, p));
            assert(out@ =~= encoded(c, p, self.version, keys_view(self.keys)));
            if round_trips(c, p.len(), self.version, keys_view(self.keys)) {
                lemma_encoded_decodes(c, p, self.version, keys_view(self.keys));
            }
        }
        Ok(Buffer {
            compression: self.compression,
            buffer: out,
            version: self.version,
            keys: self.keys,
            state: PhantomData,
        })
    }
}


/// Splits frame `b` into its parts, deciphering what follows the five-byte header
/// when there are keys.
pub fn unframe(b: &[u8], keys: &Option<[u32; 4]>) -> (r: Result<(Compression, Vec<u8>, u32, Option<i16>), CacheError>)
    ensures
        match (r, unframed(b@, keys_view(*keys))) {
            (Ok(x), Ok(f)) => x.0 == f.compression && x.1@ == f.body && x.2 == f.declared && x.3
                == f.version,
            (Err(e), Err(g)) => e == g,
            _ => false,
        },
{
    let tag = match read_u8(b, 0) {
        Some(t) => t,
        None => return Err(CacheError::Parse(ParseError::Truncated)),
    };
    let compression = match Compression::try_from(tag) {
        Ok(c) => c,
        Err(e) => return Err(CacheError::Compression(e)),
    };
    let clen = match read_u32(b, 1) {
        Some(v) => v,
        None => return Err(CacheError::Parse(ParseError::Truncated)),
    };
    let mut rest = vstd::slice::slice_to_vec(vstd::slice::slice_subrange(b, 5, b.len()));
    match keys {
        Some(k) => decipher(&mut rest, k),
        None => {},
    }
    let start: usize = if compression == Compression::Uncompressed { 0 } else { 4 };
    if rest.len() < start || rest.len() - start < clen as usize {
        return Err(CacheError::Parse(ParseError::Truncated));
    }
    let declared = if start == 4 {
        match read_u32(rest.as_slice(), 0) {
            Some(v) => v,
            None => return Err(CacheError::Parse(ParseError::Truncated)),
        }
    } else {
        clen
    };
    let end = start + clen as usize;
    let body = vstd::slice::slice_to_vec(vstd::slice::slice_subrange(rest.as_slice(), start, end));
    let version = if rest.len() - end >= 2 {
        match read_u16(rest.as_slice(), end) {
            Some(v) => Some(v as i16),
            None => None,
        }
    } else {
        None
    };
    Ok((compression, body, declared, version))
}

impl Buffer<Encoded> {
    /// Decodes the frame: reads the tag and body length, deciphers the rest when
    /// there are keys, then takes the body and decompresses it to the declared length.
    pub fn decode(self) -> (r: Result<Buffer<Decoded>, CacheError>)
        ensures
            unframed(self@.bytes, self@.keys) matches Err(e) ==> r matches Err(g) && g == e,
            r is Ok <==> decoded(self@.bytes, self@.keys) is Some,
            r matches Ok(d) ==> d@.keys == self@.keys && decoded(self@.bytes, self@.keys) == Some(
                (d@.compression, d@.bytes, d@.version),
            ),
    {
        let (compression, body, declared, version) = match unframe(self.buffer.as_slice(), &self.keys) {
            Ok(x) => x,
            Err(e) => return Err(e),
        };
        let want = declared as usize;
        let payload = match compression {
            Compression::Uncompressed => body,
            Compression::Bzip2 => {
                let mut input: Vec<u8> = vec![0x42u8, 0x5Au8, 0x68u8, 0x31u8];
                assert(input@ =~= bzip2_magic());
                extend_bytes(&mut input, body.as_slice());
                match decompress_bzip2(input.as_slice()) {
                    Ok(v) => v,
                    Err(e) => return Err(CacheError::Io(e)),
                }
            },
            Compression::Gzip => match decompress_gzip(body.as_slice()) {
                Ok(v) => v,
                Err(e) => return Err(CacheError::Io(e)),
            },
            Compression::Lzma => match decompress_lzma(body.as_slice(), want) {
                Ok(v) => v,
                Err(e) => return Err(CacheError::Lzma(e)),
            },
        };
        if compression != Compression::Uncompressed && payload.len() != want {
            return Err(CacheError::Parse(ParseError::DecompressedLength(want, payload.len())));
        }
        Ok(Buffer { compression, buffer: payload, version, keys: self.keys, state: PhantomData })
    }
}


/// An uncompressed frame read without keys carries no version when its body ends
/// the frame, and carries the two bytes after the body as the version when exactly
/// two follow it.
pub proof fn lemma_uncompressed_version(b: Seq<u8>)
    requires
        b.len() >= 5,
        b[0] == 0,
    ensures
        b.len() == 5 + be_u32_at(b, 1) ==> (unframed(b, None) matches Ok(f) && f.version is None),
        b.len() == 7 + be_u32_at(b, 1) ==> (unframed(b, None) matches Ok(f) && f.version == Some(
            (be_u16_at(b, b.len() - 2) as u16) as i16,
        )),
{
    let rest = b.subrange(5, b.len() as int);
    let clen = be_u32_at(b, 1);
    if b.len() == 7 + clen {
        assert(be_u16_at(rest, clen) == be_u16_at(b, b.len() - 2));
    }
}

} // verus!
