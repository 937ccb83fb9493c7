use pass_secret_service::compact;
use pass_secret_service::record;

#[test]
fn redb_imps_test_decode_int() {
    let four = [0, 2, 4];
    assert_eq!(compact::decode_int(&four, 2), (4, 1));
    let short = [2, 253, 55, 187];
    assert_eq!(compact::decode_int(&short, 1), (55 | (187 << 8), 3));
}

#[test]
fn test_decode_int() {
    let four: [u8; 1] = [4];
    assert_eq!(record::decode_int(&four, 0).unwrap().0, 4);
    let short: [u8; 3] = [254, 55, 187];
    assert_eq!(record::decode_int(&short, 0).unwrap().0, 55 | (187 << 8));
    let int: [u8; 5] = [255, 123, 254, 2, 3];
    assert_eq!(
        record::decode_int(&int, 0).unwrap().0,
        123 | (254 << 8) | (2 << 16) | (3 << 24)
    );
}

#[test]
fn test_encode_int() {
    let mut buf = Vec::new();
    record::encode_int(124, &mut buf).unwrap();
    assert_eq!(record::decode_int(&buf, 0).unwrap().0, 124);
    buf.clear();

    record::encode_int(43123, &mut buf).unwrap();
    assert_eq!(record::decode_int(&buf, 0).unwrap().0, 43123);
    buf.clear();

    record::encode_int(3194105786, &mut buf).unwrap();
    assert_eq!(record::decode_int(&buf, 0).unwrap().0, 3194105786);
}

#[test]
fn record_int_encodings_are_exact() {
    let mut buf = Vec::new();
    record::encode_int(252, &mut buf).unwrap();
    assert_eq!(buf, vec![252]);
    buf.clear();
    record::encode_int(253, &mut buf).unwrap();
    assert_eq!(buf, vec![254, 253, 0]);
    assert_eq!(record::decode_int(&buf, 0), Ok((253, 3)));
    buf.clear();
    record::encode_int(254, &mut buf).unwrap();
    assert_eq!(buf, vec![254, 254, 0]);
    buf.clear();
    record::encode_int(0x1_0000, &mut buf).unwrap();
    assert_eq!(buf, vec![255, 0, 0, 1, 0]);
}

#[test]
fn record_int_too_large_is_refused() {
    let mut buf = vec![9];
    assert_eq!(record::encode_int(0x1_0000_0000, &mut buf), Err(record::CodecError::TooLarge));
    assert_eq!(buf, vec![9]);
}

#[test]
fn record_int_truncated_input() {
    assert_eq!(record::decode_int(&[], 0), Err(record::CodecError::Truncated));
    assert_eq!(record::decode_int(&[254, 1], 0), Err(record::CodecError::Truncated));
    assert_eq!(record::decode_int(&[255, 1, 2, 3], 0), Err(record::CodecError::Truncated));
    assert_eq!(record::decode_int(&[1, 2], 1), Ok((2, 1)));
}

#[test]
fn compact_encodings_are_exact() {
    let mut buf = Vec::new();
    compact::encode_int(252, &mut buf);
    assert_eq!(buf, vec![252]);
    buf.clear();
    compact::encode_int(253, &mut buf);
    assert_eq!(buf, vec![253, 253, 0]);
    buf.clear();
    compact::encode_int(0x1_0000, &mut buf);
    assert_eq!(buf, vec![254, 0, 0, 1, 0]);
    buf.clear();
    compact::encode_int(0x1_0000_0000, &mut buf);
    assert_eq!(buf, vec![255, 0, 0, 0, 0, 1, 0, 0, 0]);
    assert_eq!(compact::decode_int(&buf, 0), (0x1_0000_0000, 9));
}

#[test]
fn compact_decode_u32() {
    let data = [7, 254, 0x78, 0x56, 0x34, 0x12];
    assert_eq!(compact::decode_int(&data, 1), (0x1234_5678, 5));
}

fn sample_map() -> record::RedbHashMap {
    record::RedbHashMap {
        entries: vec![
            (b"hello".to_vec(), vec![5]),
            (b"foo".to_vec(), vec![4]),
            (b"bar".to_vec(), vec![3]),
        ],
    }
}

#[test]
fn test_redb_hashmap() {
    let map = sample_map();
    let serialized = map.as_bytes().unwrap();
    let deserialized = record::RedbHashMap::from_bytes(&serialized).unwrap();
    assert_eq!(map.entries, deserialized.entries);
}

#[test]
fn redb_imps_test_redb_hashmap() {
    let map = sample_map();
    let serialized = map.as_bytes().unwrap();
    assert_eq!(serialized[..8].to_vec(), vec![3, 5, b'h', b'e', b'l', b'l', b'o', 1]);
    let deserialized = record::RedbHashMap::from_bytes(&serialized).unwrap();
    assert_eq!(map.entries, deserialized.entries);
}

#[test]
fn truncated_record_is_refused() {
    let serialized = sample_map().as_bytes().unwrap();
    let cut = &serialized[..serialized.len() - 1];
    assert!(matches!(record::RedbHashMap::from_bytes(cut), Err(record::CodecError::Truncated)));
    assert!(matches!(record::RedbHashMap::from_bytes(&[]), Err(record::CodecError::Truncated)));
    let empty = record::RedbHashMap::from_bytes(&[0]).unwrap();
    assert!(empty.entries.is_empty());
}
