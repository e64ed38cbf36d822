use runefs::dat2::read_archive;
use runefs::sector::{SectorHeader, SectorHeaderSize};
use runefs::{ArchiveRef, CacheError, ParseError, ReadError, Sector};

#[test]
fn header_size_normal() {
    let archive = ArchiveRef { id: u16::MAX as u32, index_id: 0, sector: 0, length: 0 };
    let header_size = SectorHeaderSize::from(&archive);
    assert_eq!(header_size, SectorHeaderSize::Normal);
}

#[test]
fn header_size_expanded() {
    let archive = ArchiveRef { id: (u16::MAX as u32) + 1, index_id: 0, sector: 0, length: 0 };
    let header_size = SectorHeaderSize::from(&archive);
    assert_eq!(header_size, SectorHeaderSize::Expanded);
}

#[test]
fn parse_header() {
    let buffer = &[0, 0, 0, 0, 0, 0, 2, 255];
    let (_, header) = SectorHeader::new(buffer, &SectorHeaderSize::Normal).unwrap();
    assert_eq!(header, SectorHeader { archive_id: 0, chunk: 0, next: 2, index_id: 255 });
}

#[test]
fn header_validation() {
    let header = SectorHeader { archive_id: 0, chunk: 0, next: 2, index_id: 255 };
    assert_eq!(header.validate(1, 0, 255), Err(ReadError::SectorArchiveMismatch(header.archive_id, 1)));
    assert_eq!(header.validate(0, 1, 255), Err(ReadError::SectorChunkMismatch(header.chunk, 1)));
    assert_eq!(header.validate(0, 0, 0), Err(ReadError::SectorIndexMismatch(header.index_id, 0)));
}

#[test]
fn header_validation_passes() {
    let header = SectorHeader { archive_id: 7, chunk: 3, next: 0, index_id: 2 };
    assert_eq!(header.validate(7, 3, 2), Ok(()));
}

#[test]
fn parse_expanded_header() {
    let buffer = &[0, 1, 0, 0, 0, 4, 0, 0, 9, 3, 0xAA, 0xBB];
    let sector = Sector::new(buffer, &SectorHeaderSize::Expanded).unwrap();
    assert_eq!(sector.header, SectorHeader { archive_id: 65536, chunk: 4, next: 9, index_id: 3 });
    assert_eq!(sector.data_block, &[0xAA, 0xBB]);
}

#[test]
fn parse_header_too_short() {
    let buffer = &[0, 0, 0, 0, 0, 0, 2];
    assert!(matches!(
        SectorHeader::new(buffer, &SectorHeaderSize::Normal),
        Err(CacheError::Parse(ParseError::Truncated))
    ));
}

fn sector_bytes(archive: u16, chunk: u16, next: u32, index: u8, payload: &[u8]) -> Vec<u8> {
    let mut v = vec![
        (archive >> 8) as u8,
        archive as u8,
        (chunk >> 8) as u8,
        chunk as u8,
        (next >> 16) as u8,
        (next >> 8) as u8,
        next as u8,
        index,
    ];
    v.extend_from_slice(payload);
    v.resize(520, 0);
    v
}

#[test]
fn read_chain_of_two_sectors() {
    let first: Vec<u8> = (0..512).map(|i| (i % 251) as u8).collect();
    let second: Vec<u8> = (0..88).map(|i| (i * 3) as u8).collect();
    let mut data = sector_bytes(0, 0, 0, 0, &[]);
    data.extend(sector_bytes(5, 1, 0, 2, &second));
    data.extend(sector_bytes(5, 0, 1, 2, &first));
    let archive = ArchiveRef { id: 5, index_id: 2, sector: 2, length: 600 };
    let bytes = read_archive(&data, &archive).unwrap();
    assert_eq!(bytes.len(), 600);
    assert_eq!(&bytes[..512], &first[..]);
    assert_eq!(&bytes[512..], &second[..]);
}

#[test]
fn read_chain_detects_wrong_chunk() {
    let mut data = sector_bytes(5, 0, 1, 2, &[1; 512]);
    data.extend(sector_bytes(5, 7, 0, 2, &[2; 10]));
    let archive = ArchiveRef { id: 5, index_id: 2, sector: 0, length: 520 };
    assert!(matches!(
        read_archive(&data, &archive),
        Err(CacheError::Read(ReadError::SectorChunkMismatch(7, 1)))
    ));
}

#[test]
fn read_chain_detects_wrong_index() {
    let data = sector_bytes(5, 0, 0, 3, &[1; 20]);
    let archive = ArchiveRef { id: 5, index_id: 2, sector: 0, length: 20 };
    assert!(matches!(
        read_archive(&data, &archive),
        Err(CacheError::Read(ReadError::SectorIndexMismatch(3, 2)))
    ));
}

#[test]
fn read_chain_past_end_of_data() {
    let data = sector_bytes(5, 0, 4, 2, &[1; 512]);
    let archive = ArchiveRef { id: 5, index_id: 2, sector: 0, length: 700 };
    assert!(matches!(read_archive(&data, &archive), Err(CacheError::Parse(ParseError::Sector(0)))));
}

#[test]
fn read_empty_archive() {
    let archive = ArchiveRef { id: 5, index_id: 2, sector: 0, length: 0 };
    assert_eq!(read_archive(&[], &archive).unwrap(), Vec::<u8>::new());
}

#[test]
fn data_blocks_split_length() {
    let archive = ArchiveRef { id: 1, index_id: 0, sector: 0, length: 1000 };
    assert_eq!(archive.data_blocks(), vec![512, 488]);
    let expanded = ArchiveRef { id: 70000, index_id: 0, sector: 0, length: 1020 };
    assert_eq!(expanded.data_blocks(), vec![510, 510]);
}

#[test]
fn locator_bytes() {
    let r = ArchiveRef::from_buffer(4, 1, &[0, 0, 6, 0, 0, 2]).unwrap();
    assert_eq!(r, ArchiveRef { id: 4, index_id: 1, sector: 2, length: 6 });
}

#[test]
fn locator_all_zero_is_empty() {
    let r = ArchiveRef::from_buffer(0, 0, &[0; 6]).unwrap();
    assert_eq!(r.length, 0);
    assert!(r.is_empty());
}

#[test]
fn locator_too_short() {
    assert_eq!(ArchiveRef::from_buffer(3, 0, &[0; 5]), Err(ParseError::Archive(3)));
}

fn is_normal<T: Send + Sync + Sized + Unpin>() {}

#[test]
fn normal_types() {
    is_normal::<runefs::Dat2>();
}
