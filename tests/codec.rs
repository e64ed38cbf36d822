use runefs::codec::{Buffer, Compression, Decoded, Encoded};
use runefs::parse::read_u32_smart;
use runefs::xtea::{decipher, encipher};
use runefs::{CacheError, CompressionUnsupported, ParseError};

fn round_trip(payload: &[u8], compression: Compression, version: Option<i16>, keys: Option<[u32; 4]>) {
    let mut buffer: Buffer<Decoded> = Buffer::new(payload.to_vec()).with_compression(compression);
    if let Some(v) = version {
        buffer = buffer.with_version(v);
    }
    if let Some(k) = keys {
        buffer = buffer.with_xtea_keys(k);
    }
    let encoded = buffer.encode().unwrap();
    assert_eq!(encoded.as_slice()[0], u8::from(compression));
    let decoded = encoded.decode().unwrap();
    assert_eq!(decoded.version(), version);
    assert_eq!(decoded.compression(), compression);
    assert_eq!(decoded.finalize(), payload.to_vec());
}

fn sample() -> Vec<u8> {
    (0..3000u32).map(|i| (i * 7 % 13) as u8).collect()
}

#[test]
fn compression_try_from() {
    assert_eq!(Compression::try_from(3u8), Ok(Compression::Lzma));
    assert_eq!(Compression::try_from(0u8), Ok(Compression::Uncompressed));
    assert_eq!(Compression::try_from(4u8), Err(CompressionUnsupported(4)));
    assert_eq!(u8::from(Compression::Gzip), 2);
}

#[test]
fn encode_uncompressed_with_version() {
    let buffer: Buffer<Decoded> = Buffer::new(vec![0x00, 0x01, 0x02]).with_version(7);
    let encoded = buffer.encode().unwrap();
    assert_eq!(encoded.as_slice(), &[0x00, 0x00, 0x00, 0x00, 0x03, 0x00, 0x01, 0x02, 0x00, 0x07]);
    let decoded = encoded.decode().unwrap();
    assert_eq!(decoded.version(), Some(7));
    assert_eq!(decoded.finalize(), vec![0x00, 0x01, 0x02]);
}

#[test]
fn uncompressed_without_trailing_bytes_has_no_version() {
    let frame: Buffer<Encoded> = Buffer::new(vec![0, 0, 0, 0, 2, 9, 8]);
    let decoded = frame.decode().unwrap();
    assert_eq!(decoded.version(), None);
    assert_eq!(decoded.finalize(), vec![9, 8]);
}

#[test]
fn uncompressed_with_two_trailing_bytes_has_version() {
    let frame: Buffer<Encoded> = Buffer::new(vec![0, 0, 0, 0, 2, 9, 8, 0xFF, 0xFE]);
    let decoded = frame.decode().unwrap();
    assert_eq!(decoded.version(), Some(-2));
    assert_eq!(decoded.finalize(), vec![9, 8]);
}

#[test]
fn unknown_tag_is_rejected() {
    let frame: Buffer<Encoded> = Buffer::new(vec![9, 0, 0, 0, 0]);
    assert!(matches!(frame.decode(), Err(CacheError::Compression(CompressionUnsupported(9)))));
}

#[test]
fn truncated_frame_is_rejected() {
    let frame: Buffer<Encoded> = Buffer::new(vec![0, 0, 0, 0, 5, 1, 2]);
    assert!(matches!(frame.decode(), Err(CacheError::Parse(ParseError::Truncated))));
    let empty: Buffer<Encoded> = Buffer::new(vec![]);
    assert!(matches!(empty.decode(), Err(CacheError::Parse(ParseError::Truncated))));
}

#[test]
fn round_trip_uncompressed() {
    round_trip(&sample(), Compression::Uncompressed, None, None);
    round_trip(&[], Compression::Uncompressed, Some(3), None);
}

#[test]
fn round_trip_bzip2() {
    round_trip(&sample(), Compression::Bzip2, Some(12), None);
    round_trip(b"hello", Compression::Bzip2, None, None);
}

#[test]
fn round_trip_gzip() {
    round_trip(&sample(), Compression::Gzip, Some(-5), None);
}

#[test]
fn round_trip_lzma() {
    round_trip(&sample(), Compression::Lzma, Some(1), None);
}

#[test]
fn round_trip_uncompressed_with_keys() {
    round_trip(&sample(), Compression::Uncompressed, None, Some([1, 2, 3, 4]));
}

#[test]
fn bzip2_frame_has_magic_stripped() {
    let payload = sample();
    let encoded = Buffer::<Decoded>::new(payload.clone()).with_compression(Compression::Bzip2).encode().unwrap();
    let bytes = encoded.finalize();
    assert_ne!(&bytes[9..12], b"BZh");
    let declared = u32::from_be_bytes([bytes[5], bytes[6], bytes[7], bytes[8]]);
    assert_eq!(declared as usize, payload.len());

    let mut mangled = bytes.clone();
    for b in &mut mangled[9..13] {
        *b ^= 0x5A;
    }
    assert!(Buffer::<Encoded>::new(mangled).decode().is_err());

    let mut with_magic = vec![1u8];
    let body_len = (bytes.len() - 9 + 4) as u32;
    with_magic.extend_from_slice(&body_len.to_be_bytes());
    with_magic.extend_from_slice(&bytes[5..9]);
    with_magic.extend_from_slice(b"BZh1");
    with_magic.extend_from_slice(&bytes[9..]);
    assert!(Buffer::<Encoded>::new(with_magic).decode().is_err());
}

#[test]
fn encode_compressed_header_layout() {
    let payload = sample();
    let encoded = Buffer::<Decoded>::new(payload.clone()).with_compression(Compression::Gzip).encode().unwrap();
    let bytes = encoded.finalize();
    assert_eq!(bytes[0], 2);
    let body = u32::from_be_bytes([bytes[1], bytes[2], bytes[3], bytes[4]]) as usize;
    assert_eq!(bytes.len(), 9 + body);
    assert_eq!(u32::from_be_bytes([bytes[5], bytes[6], bytes[7], bytes[8]]) as usize, payload.len());
}

#[test]
fn xtea_known_vector() {
    let key = [0x0001_0203, 0x0405_0607, 0x0809_0A0B, 0x0C0D_0E0F];
    let mut block = vec![0x41, 0x42, 0x43, 0x44, 0x45, 0x46, 0x47, 0x48];
    encipher(&mut block, &key);
    assert_eq!(block, vec![0x49, 0x7D, 0xF3, 0xD0, 0x72, 0x61, 0x2C, 0xB5]);
    decipher(&mut block, &key);
    assert_eq!(block, vec![0x41, 0x42, 0x43, 0x44, 0x45, 0x46, 0x47, 0x48]);
}

#[test]
fn xtea_leaves_trailing_bytes() {
    let key = [9, 8, 7, 6];
    let original: Vec<u8> = (0..13).collect();
    let mut bytes = original.clone();
    encipher(&mut bytes, &key);
    assert_ne!(&bytes[..8], &original[..8]);
    assert_eq!(&bytes[8..], &original[8..]);
    decipher(&mut bytes, &key);
    assert_eq!(bytes, original);
}

#[test]
fn smart_integer_boundary() {
    assert_eq!(read_u32_smart(&[0x7F, 0xFF], 0), Some((0x7FFF, 2)));
    assert_eq!(read_u32_smart(&[0x80, 0x00, 0x80, 0x00], 0), Some((0x8000, 4)));
    assert_eq!(read_u32_smart(&[0xFF, 0xFF, 0xFF, 0xFF], 0), Some((0x7FFF_FFFF, 4)));
    assert_eq!(read_u32_smart(&[0x80, 0x00, 0x80], 0), None);
    assert_eq!(read_u32_smart(&[0x00], 0), None);
}

#[test]
fn round_trip_uncompressed_with_keys_and_version() {
    round_trip(&sample(), Compression::Uncompressed, Some(99), Some([0xDEAD, 0xBEEF, 7, 0]));
    round_trip(&[1, 2, 3, 4, 5], Compression::Uncompressed, Some(-1), Some([1, 1, 1, 1]));
}

#[test]
fn keys_encipher_the_body() {
    let payload: Vec<u8> = (0..16).collect();
    let plain = Buffer::<Decoded>::new(payload.clone()).encode().unwrap().finalize();
    let keyed = Buffer::<Decoded>::new(payload).with_xtea_keys([1, 2, 3, 4]).encode().unwrap().finalize();
    assert_eq!(&plain[..5], &keyed[..5]);
    assert_ne!(&plain[5..], &keyed[5..]);
}

#[test]
fn buffer_from_vec_defaults() {
    let buffer: Buffer<Decoded> = Buffer::from(vec![4, 5]);
    assert_eq!(buffer.compression(), Compression::Uncompressed);
    assert_eq!(buffer.version(), None);
    assert_eq!(buffer.len(), 2);
    assert_eq!(Compression::default(), Compression::Uncompressed);
}

#[test]
fn buffer_default_is_empty() {
    let buffer: Buffer<Encoded> = Buffer::default();
    assert_eq!(buffer.len(), 0);
    assert_eq!(buffer.compression(), Compression::Uncompressed);
    assert!(format!("{:?}", buffer).contains("Buffer"));
}

#[test]
fn declared_length_mismatch_is_an_error() {
    let payload = sample();
    let mut bytes = Buffer::<Decoded>::new(payload.clone()).with_compression(Compression::Gzip).encode().unwrap().finalize();
    let wrong = (payload.len() as u32 - 1).to_be_bytes();
    bytes[5..9].copy_from_slice(&wrong);
    assert!(matches!(
        Buffer::<Encoded>::new(bytes).decode(),
        Err(CacheError::Parse(ParseError::DecompressedLength(2999, 3000)))
    ));
}

#[test]
fn short_bzip2_body_is_an_error() {
    let frame: Buffer<Encoded> = Buffer::new(vec![1, 0, 0, 0, 2, 0, 0, 0, 0, 0x31, 0x41]);
    assert!(frame.decode().is_err());
}

#[test]
fn encode_compressed_always_succeeds() {
    for c in [Compression::Bzip2, Compression::Gzip, Compression::Lzma] {
        assert!(Buffer::<Decoded>::new(vec![]).with_compression(c).encode().is_ok());
    }
}
