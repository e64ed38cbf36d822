use runefs::codec::{Buffer, Decoded};
use runefs::{CacheError, Index, IndexMetadata, Indices, ParseError, ReadError};

fn table_v5() -> Vec<u8> {
    let mut v = vec![5u8, 1];
    v.extend_from_slice(&[0, 2]);
    v.extend_from_slice(&[0, 1, 0, 2]);
    v.extend_from_slice(&[0, 0, 0, 10, 0xFF, 0xFF, 0xFF, 0xFF]);
    v.extend_from_slice(&[0, 0, 1, 0, 0, 0, 0, 5]);
    v.extend_from_slice(&[0, 0, 0, 1, 0, 0, 0, 2]);
    v.extend_from_slice(&[0, 2, 0, 1]);
    v.extend_from_slice(&[0, 0, 0, 4, 0, 7]);
    v
}

#[test]
fn metadata_fixed_width_table() {
    let m = IndexMetadata::from_slice(&table_v5()).unwrap();
    assert_eq!(m.len(), 2);
    let a = m.get(0).unwrap();
    let b = m.get(1).unwrap();
    assert_eq!((a.id, b.id), (1, 3));
    assert_eq!((a.name_hash, b.name_hash), (10, -1));
    assert_eq!((a.crc, b.crc), (256, 5));
    assert_eq!((a.hash, b.hash), (0, 0));
    assert_eq!((a.version, b.version), (1, 2));
    assert_eq!((a.entry_count, b.entry_count), (2, 1));
    assert_eq!(a.valid_ids, vec![0, 4]);
    assert_eq!(b.valid_ids, vec![7]);
    assert_eq!(a.whirlpool, vec![0u8; 64]);
    assert!(m.get(2).is_none());
}

#[test]
fn metadata_is_a_function_of_its_bytes() {
    let first = IndexMetadata::from_slice(&table_v5()).unwrap();
    let second = IndexMetadata::from_buffer(Buffer::<Decoded>::new(table_v5())).unwrap();
    assert_eq!(first.as_slice(), second.as_slice());
}

#[test]
fn metadata_smart_table() {
    let mut v = vec![7u8, 0, 0, 0, 9, 2 | 8];
    v.extend_from_slice(&[0x00, 0x01]);
    v.extend_from_slice(&[0x80, 0x00, 0x80, 0x00]);
    v.extend_from_slice(&[0xDE, 0xAD, 0xBE, 0xEF]);
    v.extend_from_slice(&[0x00, 0x00, 0x00, 0x2A]);
    v.extend((0..64).map(|i| i as u8));
    v.extend_from_slice(&[0, 0, 0, 3]);
    v.extend_from_slice(&[0x00, 0x02]);
    v.extend_from_slice(&[0x00, 0x05, 0x80, 0x01, 0x00, 0x00]);
    let m = IndexMetadata::from_slice(&v).unwrap();
    assert_eq!(m.len(), 1);
    let a = m.get(0).unwrap();
    assert_eq!(a.id, 0x8000);
    assert_eq!(a.crc, 0xDEAD_BEEF);
    assert_eq!(a.hash, 42);
    assert_eq!(a.whirlpool, (0..64).map(|i| i as u8).collect::<Vec<u8>>());
    assert_eq!(a.version, 3);
    assert_eq!(a.entry_count, 2);
    assert_eq!(a.valid_ids, vec![5, 5 + 0x0001_0000]);
}

#[test]
fn metadata_with_codec_block_skipped() {
    let mut v = vec![5u8, 4, 0, 1, 0, 1];
    v.extend_from_slice(&[0, 0, 0, 1]);
    v.extend_from_slice(&[9; 8]);
    v.extend_from_slice(&[0, 0, 0, 8]);
    v.extend_from_slice(&[0, 0]);
    let m = IndexMetadata::from_slice(&v).unwrap();
    assert_eq!(m.get(0).unwrap().version, 8);
    assert_eq!(m.get(0).unwrap().crc, 1);
}

#[test]
fn metadata_truncated() {
    let mut v = table_v5();
    v.pop();
    assert!(matches!(IndexMetadata::from_slice(&v), Err(CacheError::Parse(ParseError::Truncated))));
    assert!(matches!(IndexMetadata::from_slice(&[]), Err(CacheError::Parse(ParseError::Truncated))));
}

#[test]
fn index_from_buffer_records() {
    let index = Index::from_buffer(7, &[0, 0, 6, 0, 0, 2, 0, 1, 0, 0, 0, 9, 1, 2]).unwrap();
    assert_eq!(index.id, 7);
    assert_eq!(index.archive_refs.len(), 2);
    let a = index.archive_refs.get(&0).unwrap();
    assert_eq!((a.id, a.index_id, a.length, a.sector), (0, 7, 6, 2));
    let b = index.archive_refs.get(&1).unwrap();
    assert_eq!((b.length, b.sector), (256, 9));
    assert_eq!(index.metadata.len(), 0);
}

#[test]
fn indices_hold_every_index_under_its_id() {
    let reference = Index::from_buffer(255, &[0; 6 * 21]).unwrap();
    let indexes: Vec<Index> = (0..=20u8).map(|i| Index::from_buffer(i, &[]).unwrap()).collect();
    let indices = Indices::from_indexes(reference, indexes, &[]).unwrap();
    assert_eq!(indices.count(), 22);
    for k in (0..=20u8).chain(std::iter::once(255)) {
        assert_eq!(indices.get(&k).unwrap().id, k);
    }
    assert!(indices.get(&21).is_none());
}

#[test]
fn indices_missing_reference_entry() {
    let reference = Index::from_buffer(255, &[0; 6 * 2]).unwrap();
    let indexes = vec![Index::from_buffer(3, &[]).unwrap()];
    assert!(matches!(
        Indices::from_indexes(reference, indexes, &[]),
        Err(CacheError::Read(ReadError::ArchiveNotFound { idx: 255, arc: 3 }))
    ));
}

#[test]
fn indices_attach_metadata_from_reference_table() {
    let table = table_v5();
    let mut frame = vec![0u8];
    frame.extend_from_slice(&(table.len() as u32).to_be_bytes());
    frame.extend_from_slice(&table);
    let mut data = vec![0u8; 520];
    let mut sector = vec![0, 0, 0, 0, 0, 0, 0, 255];
    sector.extend_from_slice(&frame);
    sector.resize(520, 0);
    data.extend(sector);
    let len = frame.len() as u8;
    let reference = Index::from_buffer(255, &[0, 0, len, 0, 0, 1]).unwrap();
    let indexes = vec![Index::from_buffer(0, &[]).unwrap()];
    let indices = Indices::from_indexes(reference, indexes, &data).unwrap();
    let metadata = &indices.get(&0).unwrap().metadata;
    assert_eq!(metadata.len(), 2);
    assert_eq!(metadata.get(1).unwrap().id, 3);
}

#[test]
fn metadata_iterates_in_table_order() {
    let m = IndexMetadata::from_slice(&table_v5()).unwrap();
    let ids: Vec<u32> = m.iter().map(|a| a.id).collect();
    assert_eq!(ids, vec![1, 3]);
}

#[test]
fn indices_keep_each_index_locators() {
    let reference = Index::from_buffer(255, &[0; 6 * 3]).unwrap();
    let indexes = vec![Index::from_buffer(2, &[0, 0, 9, 0, 0, 4]).unwrap(), Index::from_buffer(0, &[]).unwrap()];
    let indices = Indices::from_indexes(reference, indexes, &[]).unwrap();
    let two = indices.get(&2).unwrap();
    assert_eq!(two.archive_refs.len(), 1);
    assert_eq!(two.archive_refs.get(&0).unwrap().length, 9);
    assert_eq!(indices.get(&0).unwrap().archive_refs.len(), 0);
}

#[test]
fn metadata_from_data_reports_read_errors() {
    let r = runefs::ArchiveRef { id: 0, index_id: 255, sector: 3, length: 10 };
    assert!(matches!(
        runefs::dat2::metadata_from_data(&[0u8; 520], &r),
        Err(CacheError::Parse(ParseError::Sector(3)))
    ));
}
