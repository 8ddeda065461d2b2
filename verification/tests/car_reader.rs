use autoreply::car::cbor::{decode_cbor, get_text_field, CborValue};
use autoreply::car::error::CarError;
use autoreply::car::reader::{
    format_cid_simple, read_cid, read_header, read_varint, CarRecords, SyncByteReader, SyncCarReader,
};
use autoreply::car::types::Cid;

#[derive(Clone)]
enum CborVal {
    Text(String),
    Int(i64),
    Bytes(Vec<u8>),
    Array(Vec<CborVal>),
}

fn encode_cbor_map(pairs: &[(&str, CborVal)]) -> Vec<u8> {
    let mut result = vec![0xA0 | (pairs.len() as u8)];
    for (key, value) in pairs {
        result.extend(encode_cbor_text(key));
        result.extend(encode_cbor_val(value));
    }
    result
}

fn encode_cbor_text(s: &str) -> Vec<u8> {
    let bytes = s.as_bytes();
    let mut result = vec![];
    if bytes.len() <= 23 {
        result.push(0x60 | (bytes.len() as u8));
    } else if bytes.len() <= 255 {
        result.push(0x78);
        result.push(bytes.len() as u8);
    } else {
        panic!("Text too long for test helper");
    }
    result.extend_from_slice(bytes);
    result
}

fn encode_cbor_bytes(b: &[u8]) -> Vec<u8> {
    let mut result = vec![];
    if b.len() <= 23 {
        result.push(0x40 | (b.len() as u8));
    } else if b.len() <= 255 {
        result.push(0x58);
        result.push(b.len() as u8);
    } else {
        panic!("Bytes too long for test helper");
    }
    result.extend_from_slice(b);
    result
}

fn encode_cbor_int(i: i64) -> Vec<u8> {
    if i >= 0 {
        if i <= 23 {
            vec![i as u8]
        } else if i <= 255 {
            vec![0x18, i as u8]
        } else {
            panic!("Integer too large for test helper");
        }
    } else {
        let val = (-1 - i) as u64;
        if val <= 23 {
            vec![0x20 | (val as u8)]
        } else {
            panic!("Negative integer too large for test helper");
        }
    }
}

fn encode_cbor_array(items: &[CborVal]) -> Vec<u8> {
    let mut result = vec![0x80 | (items.len() as u8)];
    for item in items {
        result.extend(encode_cbor_val(item));
    }
    result
}

fn encode_cbor_val(v: &CborVal) -> Vec<u8> {
    match v {
        CborVal::Text(s) => encode_cbor_text(s),
        CborVal::Int(i) => encode_cbor_int(*i),
        CborVal::Bytes(b) => encode_cbor_bytes(b),
        CborVal::Array(items) => encode_cbor_array(items),
    }
}

fn root_cid_bytes() -> Vec<u8> {
    vec![
        1, 0x71, 0x12, 32, 0x01, 0x02, 0x03, 0x04, 0x05, 0x06, 0x07, 0x08, 0x09, 0x0A, 0x0B, 0x0C, 0x0D,
        0x0E, 0x0F, 0x10, 0x11, 0x12, 0x13, 0x14, 0x15, 0x16, 0x17, 0x18, 0x19, 0x1A, 0x1B, 0x1C, 0x1D,
        0x1E, 0x1F, 0x20,
    ]
}

fn push_varint(result: &mut Vec<u8>, n: usize) {
    if n < 128 {
        result.push(n as u8);
    } else {
        result.push((n & 0x7F) as u8 | 0x80);
        result.push((n >> 7) as u8);
    }
}

fn create_car_header() -> Vec<u8> {
    let header_cbor = encode_cbor_map(&[
        ("version", CborVal::Int(1)),
        ("roots", CborVal::Array(vec![CborVal::Bytes(root_cid_bytes())])),
    ]);
    let mut result = Vec::new();
    push_varint(&mut result, header_cbor.len());
    result.extend_from_slice(&header_cbor);
    result
}

fn create_at_protocol_entry(record_type: &str, text: &str) -> Vec<u8> {
    let record_cbor = encode_cbor_map(&[
        ("$type", CborVal::Text(record_type.to_string())),
        ("text", CborVal::Text(text.to_string())),
    ]);
    let cid_bytes = root_cid_bytes();
    let entry_size = cid_bytes.len() + record_cbor.len();
    let mut result = Vec::new();
    push_varint(&mut result, entry_size);
    result.extend_from_slice(&cid_bytes);
    result.extend_from_slice(&record_cbor);
    result
}

fn create_non_at_protocol_entry() -> Vec<u8> {
    let record_cbor =
        encode_cbor_map(&[("data", CborVal::Text("not an AT protocol record".to_string()))]);
    let cid_bytes = vec![
        1, 0x71, 0x12, 32, 0xAA, 0xBB, 0xCC, 0xDD, 0xEE, 0xFF, 0x00, 0x11, 0x22, 0x33, 0x44, 0x55, 0x66,
        0x77, 0x88, 0x99, 0xAA, 0xBB, 0xCC, 0xDD, 0xEE, 0xFF, 0x00, 0x11, 0x22, 0x33, 0x44, 0x55, 0x66,
        0x77, 0x88, 0x99,
    ];
    let entry_size = cid_bytes.len() + record_cbor.len();
    let mut result = Vec::new();
    push_varint(&mut result, entry_size);
    result.extend_from_slice(&cid_bytes);
    result.extend_from_slice(&record_cbor);
    result
}

fn check_basic_operations() {
    let data = b"hello world";
    let mut reader = SyncByteReader::new(data);
    assert_eq!(reader.pos(), 0);
    assert_eq!(reader.remaining(), 11);
    let first_5 = reader.exactly(5, true).unwrap();
    assert_eq!(first_5, b"hello");
    assert_eq!(reader.pos(), 5);
    assert_eq!(reader.remaining(), 6);
    reader.seek(1).unwrap();
    assert_eq!(reader.pos(), 6);
    assert_eq!(reader.remaining(), 5);
    let rest = reader.exactly(5, true).unwrap();
    assert_eq!(rest, b"world");
    assert_eq!(reader.remaining(), 0);
}

fn check_reader_errors() {
    let data = b"short";
    let mut reader = SyncByteReader::new(data);
    assert!(matches!(reader.exactly(10, true), Err(CarError::UnexpectedEof)));
    assert!(matches!(reader.seek(10), Err(CarError::UnexpectedEof)));
}

fn check_read_varint() {
    let data = vec![42u8];
    let mut reader = SyncByteReader::new(&data);
    let result = read_varint(&mut reader, 10).unwrap();
    assert_eq!(result, 42);
    let data = vec![0x80 | 42, 1];
    let mut reader = SyncByteReader::new(&data);
    let result = read_varint(&mut reader, 10).unwrap();
    assert_eq!(result, 170);
}

fn check_read_varint_errors() {
    let data = vec![];
    let mut reader = SyncByteReader::new(&data);
    assert!(matches!(read_varint(&mut reader, 10), Err(CarError::UnexpectedEof)));
    let data = vec![0xFF; 11];
    let mut reader = SyncByteReader::new(&data);
    assert!(matches!(read_varint(&mut reader, 10), Err(CarError::VarintError(_))));
}

fn check_invalid_car_data() {
    let invalid_data = vec![0xFF, 0xFF, 0xFF];
    let result = CarRecords::from_bytes(invalid_data);
    assert!(result.is_ok());
    let records = result.unwrap();
    let collected: Result<Vec<_>, _> = records.collect();
    assert!(collected.is_err());
}

fn check_read_cid_validation() {
    let mut invalid_version = vec![2, 0x71, 0x12, 32];
    invalid_version.extend(vec![0; 32]);
    let mut reader = SyncByteReader::new(&invalid_version);
    assert!(matches!(read_cid(&mut reader), Err(CarError::InvalidCidVersion(2))));
    let mut invalid_codec = vec![1, 0x99, 0x12, 32];
    invalid_codec.extend(vec![0; 32]);
    let mut reader = SyncByteReader::new(&invalid_codec);
    assert!(matches!(read_cid(&mut reader), Err(CarError::InvalidCidCodec(0x99))));
    let mut invalid_digest = vec![1, 0x71, 0x12, 16];
    invalid_digest.extend(vec![0; 16]);
    let mut reader = SyncByteReader::new(&invalid_digest);
    assert!(matches!(
        read_cid(&mut reader),
        Err(CarError::InvalidDigestSize { expected: 32, actual: 16 })
    ));
}

#[test]
fn reader_test_sync_byte_reader_basic_operations() {
    check_basic_operations();
}

#[test]
fn reader_clean_test_sync_byte_reader_basic_operations() {
    check_basic_operations();
}

#[test]
fn reader_test_sync_byte_reader_errors() {
    check_reader_errors();
}

#[test]
fn reader_clean_test_sync_byte_reader_errors() {
    check_reader_errors();
}

#[test]
fn reader_test_read_varint() {
    check_read_varint();
}

#[test]
fn reader_clean_test_read_varint() {
    check_read_varint();
}

#[test]
fn reader_test_read_varint_errors() {
    check_read_varint_errors();
}

#[test]
fn reader_clean_test_read_varint_errors() {
    check_read_varint_errors();
}

#[test]
fn reader_test_car_records_invalid_car_data() {
    check_invalid_car_data();
}

#[test]
fn reader_clean_test_car_records_invalid_car_data() {
    check_invalid_car_data();
}

#[test]
fn reader_test_read_cid_validation() {
    check_read_cid_validation();
}

#[test]
fn reader_clean_test_read_cid_validation() {
    check_read_cid_validation();
}

#[test]
fn reader_clean_test_car_records_empty_iterator() {
    let car_data = create_car_header();
    let records = CarRecords::from_bytes(car_data).unwrap();
    let collected: Result<Vec<_>, _> = records.collect();
    let results = collected.unwrap();
    assert_eq!(results.len(), 0);
}

#[test]
fn reader_clean_test_car_records_single_at_protocol_record() {
    let mut car_data = create_car_header();
    car_data.extend_from_slice(&create_at_protocol_entry("app.bsky.feed.post", "Hello world!"));
    let records = CarRecords::from_bytes(car_data).unwrap();
    let collected: Result<Vec<_>, _> = records.collect();
    let results = collected.unwrap();
    assert_eq!(results.len(), 1);
    let (record_type, cbor_data, _cid) = &results[0];
    assert_eq!(record_type, "app.bsky.feed.post");
    let decoded = decode_cbor(cbor_data).unwrap();
    if let CborValue::Mapping(map) = decoded {
        assert_eq!(get_text_field(&map, "text"), Some("Hello world!"));
    } else {
        panic!("Expected CBOR map");
    }
}

#[test]
fn reader_clean_test_car_records_multiple_records() {
    let mut car_data = create_car_header();
    car_data.extend_from_slice(&create_at_protocol_entry("app.bsky.feed.post", "First post"));
    car_data.extend_from_slice(&create_at_protocol_entry("app.bsky.actor.profile", "My profile"));
    car_data.extend_from_slice(&create_non_at_protocol_entry());
    car_data.extend_from_slice(&create_at_protocol_entry("app.bsky.feed.like", "Like this"));
    let records = CarRecords::from_bytes(car_data).unwrap();
    let collected: Result<Vec<_>, _> = records.collect();
    let results = collected.unwrap();
    assert_eq!(results.len(), 3);
    let (type1, _, _) = &results[0];
    let (type2, _, _) = &results[1];
    let (type3, _, _) = &results[2];
    assert_eq!(type1, "app.bsky.feed.post");
    assert_eq!(type2, "app.bsky.actor.profile");
    assert_eq!(type3, "app.bsky.feed.like");
}

#[test]
fn reader_clean_test_car_records_filters_non_at_protocol() {
    let mut car_data = create_car_header();
    car_data.extend_from_slice(&create_non_at_protocol_entry());
    car_data.extend_from_slice(&create_non_at_protocol_entry());
    let records = CarRecords::from_bytes(car_data).unwrap();
    let collected: Result<Vec<_>, _> = records.collect();
    let results = collected.unwrap();
    assert_eq!(results.len(), 0);
}

#[test]
fn reader_clean_test_sync_car_reader_iterator() {
    let mut car_data = create_car_header();
    car_data.extend_from_slice(&create_at_protocol_entry("app.bsky.feed.post", "Test post"));
    let car_reader = SyncCarReader::from_bytes(&car_data).unwrap();
    let entries: Result<Vec<_>, _> = car_reader.collect();
    let results = entries.unwrap();
    assert_eq!(results.len(), 1);
    let entry = &results[0];
    assert_eq!(entry.cid.version, 1);
    assert_eq!(entry.cid.codec, 0x71);
    assert_eq!(entry.cid.digest_type, 0x12);
    assert_eq!(entry.cid.digest.len(), 32);
    let decoded = decode_cbor(&entry.bytes).unwrap();
    if let CborValue::Mapping(map) = decoded {
        assert_eq!(get_text_field(&map, "$type"), Some("app.bsky.feed.post"));
    } else {
        panic!("Expected CBOR map");
    }
}

#[test]
fn test_sync_byte_reader_upto() {
    let data = b"hello world";
    let reader = SyncByteReader::new(data);
    let first_5 = reader.upto(5);
    assert_eq!(first_5, b"hello");
    let beyond = reader.upto(100);
    assert_eq!(beyond, b"hello world");
    let zero = reader.upto(0);
    assert_eq!(zero, b"");
}

#[test]
fn test_sync_byte_reader_exactly_without_seek() {
    let data = b"hello world";
    let mut reader = SyncByteReader::new(data);
    let first_5 = reader.exactly(5, false).unwrap();
    assert_eq!(first_5, b"hello");
    assert_eq!(reader.pos(), 0);
    let first_5_again = reader.exactly(5, true).unwrap();
    assert_eq!(first_5_again, b"hello");
    assert_eq!(reader.pos(), 5);
}

#[test]
fn test_read_varint_boundary_cases() {
    let data = vec![127u8];
    let mut reader = SyncByteReader::new(&data);
    assert_eq!(read_varint(&mut reader, 10).unwrap(), 127);
    let data = vec![0x80, 0x01];
    let mut reader = SyncByteReader::new(&data);
    assert_eq!(read_varint(&mut reader, 10).unwrap(), 128);
    let data = vec![0x80, 0x80, 0x01];
    let mut reader = SyncByteReader::new(&data);
    assert_eq!(read_varint(&mut reader, 10).unwrap(), 16384);
}

#[test]
fn test_read_header_invalid_structure() {
    let header_cbor =
        encode_cbor_map(&[("version", CborVal::Int(2)), ("roots", CborVal::Array(vec![]))]);
    let mut data = Vec::new();
    data.push(header_cbor.len() as u8);
    data.extend_from_slice(&header_cbor);
    let mut reader = SyncByteReader::new(&data);
    let result = read_header(&mut reader);
    assert!(matches!(result, Err(CarError::InvalidHeader(_))));
}

#[test]
fn test_read_header_missing_fields() {
    let header_cbor = encode_cbor_map(&[("version", CborVal::Int(1))]);
    let mut data = Vec::new();
    data.push(header_cbor.len() as u8);
    data.extend_from_slice(&header_cbor);
    let mut reader = SyncByteReader::new(&data);
    let result = read_header(&mut reader);
    assert!(matches!(result, Err(CarError::InvalidHeader(_))));
}

#[test]
fn test_car_records_cid_formatting() {
    let mut car_data = create_car_header();
    car_data.extend_from_slice(&create_at_protocol_entry("app.bsky.feed.post", "Test CID"));
    let records = CarRecords::from_bytes(car_data).unwrap();
    let collected: Result<Vec<_>, _> = records.collect();
    let results = collected.unwrap();
    assert_eq!(results.len(), 1);
    let (_type, _cbor, cid) = &results[0];
    assert!(cid.starts_with("v1-"));
    assert!(cid.contains("-c71-"));
    assert!(cid.contains("-d12-"));
}

#[test]
fn test_car_records_mixed_content() {
    let mut car_data = create_car_header();
    car_data.extend_from_slice(&create_at_protocol_entry("app.bsky.feed.post", "A post"));
    car_data.extend_from_slice(&create_at_protocol_entry("app.bsky.feed.repost", "A repost"));
    car_data.extend_from_slice(&create_at_protocol_entry("app.bsky.graph.follow", "A follow"));
    car_data.extend_from_slice(&create_at_protocol_entry("app.bsky.feed.like", "A like"));
    car_data.extend_from_slice(&create_non_at_protocol_entry());
    let records = CarRecords::from_bytes(car_data).unwrap();
    let collected: Result<Vec<_>, _> = records.collect();
    let results = collected.unwrap();
    assert_eq!(results.len(), 4);
    let types: Vec<_> = results.iter().map(|(t, _, _)| t.as_str()).collect();
    assert!(types.contains(&"app.bsky.feed.post"));
    assert!(types.contains(&"app.bsky.feed.repost"));
    assert!(types.contains(&"app.bsky.graph.follow"));
    assert!(types.contains(&"app.bsky.feed.like"));
}

#[test]
fn test_car_records_cbor_decoding() {
    let mut car_data = create_car_header();
    car_data.extend_from_slice(&create_at_protocol_entry("app.bsky.feed.post", "Hello 世界! 🌍"));
    let records = CarRecords::from_bytes(car_data).unwrap();
    let collected: Result<Vec<_>, _> = records.collect();
    let results = collected.unwrap();
    assert_eq!(results.len(), 1);
    let (_type, cbor_data, _cid) = &results[0];
    let decoded = decode_cbor(cbor_data).unwrap();
    if let CborValue::Mapping(map) = decoded {
        let text = get_text_field(&map, "text");
        assert_eq!(text, Some("Hello 世界! 🌍"));
    } else {
        panic!("Expected CBOR map");
    }
}

#[test]
fn test_sync_car_reader_empty_car() {
    let car_data = create_car_header();
    let car_reader = SyncCarReader::from_bytes(&car_data).unwrap();
    let entries: Result<Vec<_>, _> = car_reader.collect();
    let results = entries.unwrap();
    assert_eq!(results.len(), 0);
}

#[test]
fn test_sync_car_reader_multiple_entries() {
    let mut car_data = create_car_header();
    car_data.extend_from_slice(&create_at_protocol_entry("app.bsky.feed.post", "First"));
    car_data.extend_from_slice(&create_at_protocol_entry("app.bsky.feed.post", "Second"));
    car_data.extend_from_slice(&create_at_protocol_entry("app.bsky.feed.post", "Third"));
    let car_reader = SyncCarReader::from_bytes(&car_data).unwrap();
    let entries: Result<Vec<_>, _> = car_reader.collect();
    let results = entries.unwrap();
    assert_eq!(results.len(), 3);
    for entry in &results {
        assert_eq!(entry.cid.version, 1);
        assert_eq!(entry.cid.codec, 0x71);
        assert_eq!(entry.cid.digest.len(), 32);
        assert!(!entry.bytes.is_empty());
    }
}

#[test]
fn test_read_cid_raw_codec() {
    let mut cid_data = vec![1, 0x55, 0x12, 32];
    cid_data.extend(vec![0xAB; 32]);
    let mut reader = SyncByteReader::new(&cid_data);
    let cid = read_cid(&mut reader).unwrap();
    assert_eq!(cid.version, 1);
    assert_eq!(cid.codec, 0x55);
    assert_eq!(cid.digest_type, 0x12);
    assert_eq!(cid.digest.len(), 32);
    assert_eq!(cid.digest[0], 0xAB);
}

#[test]
fn test_read_cid_zero_digest_size() {
    let cid_data = vec![1, 0x71, 0x12, 0];
    let mut reader = SyncByteReader::new(&cid_data);
    let cid = read_cid(&mut reader).unwrap();
    assert_eq!(cid.version, 1);
    assert_eq!(cid.digest.len(), 0);
}

#[test]
fn test_car_records_error_recovery() {
    let mut car_data = create_car_header();
    car_data.extend_from_slice(&create_at_protocol_entry("app.bsky.feed.post", "Valid entry"));
    car_data.push(0x80);
    car_data.push(0x80);
    car_data.push(0x01);
    let mut records = CarRecords::from_bytes(car_data).unwrap();
    let mut count = 0;
    while let Some(result) = records.next() {
        match result {
            Ok(_) => count += 1,
            Err(_) => {
                assert!(count > 0);
                return;
            }
        }
    }
    assert_eq!(count, 1);
}

#[test]
fn test_format_cid_simple() {
    let cid = Cid { version: 1, codec: 0x71, digest_type: 0x12, digest: vec![0x01, 0x02, 0x03, 0x04] };
    let formatted = format_cid_simple(&cid);
    assert!(formatted.starts_with("v1-c71-d12-"));
    assert!(formatted.contains("01020304"));
}

#[test]
fn format_cid_simple_exact_text() {
    let cid = Cid { version: 1, codec: 0x55, digest_type: 0x12, digest: vec![0xAB, 0x0C] };
    assert_eq!(format_cid_simple(&cid), "v1-c55-d12-ab0c");
}

#[test]
fn header_roots_are_parsed() {
    let car_data = create_car_header();
    let reader = SyncCarReader::from_bytes(&car_data).unwrap();
    let header = reader.header();
    assert_eq!(header.version, 1);
    assert_eq!(header.roots.len(), 1);
    assert_eq!(header.roots[0].codec, 0x71);
    assert_eq!(header.roots[0].digest[31], 0x20);
}

#[test]
fn header_version_as_text_is_accepted() {
    let header_cbor = encode_cbor_map(&[
        ("version", CborVal::Text("1".to_string())),
        ("roots", CborVal::Array(vec![])),
    ]);
    let mut data = Vec::new();
    data.push(header_cbor.len() as u8);
    data.extend_from_slice(&header_cbor);
    let mut reader = SyncByteReader::new(&data);
    let header = read_header(&mut reader).unwrap();
    assert_eq!(header.version, 1);
    assert_eq!(reader.pos(), data.len());
}

#[test]
fn cid_longer_than_entry_is_reported() {
    let mut car_data = create_car_header();
    car_data.push(2);
    car_data.extend_from_slice(&root_cid_bytes());
    let mut reader = SyncCarReader::from_bytes(&car_data).unwrap();
    assert!(matches!(reader.next(), Some(Err(CarError::UnexpectedEof))));
}

#[test]
fn unreadable_header_is_reported_every_time() {
    let mut records = CarRecords::from_bytes(vec![0x05, 0xA0]).unwrap();
    assert!(matches!(records.next(), Some(Err(CarError::UnexpectedEof))));
    assert!(matches!(records.next(), Some(Err(CarError::UnexpectedEof))));
}

#[test]
fn read_varint_respects_max_size() {
    let data = vec![0x80, 0x80, 0x01];
    let mut reader = SyncByteReader::new(&data);
    // Only two bytes may be looked at: the value is taken as it stands.
    assert_eq!(read_varint(&mut reader, 2).unwrap(), 0);
    assert_eq!(reader.pos(), 2);
}

#[test]
fn reader_test_car_records_empty_iterator() {
    let car_data = create_car_header();
    let records = CarRecords::from_bytes(car_data).unwrap();
    let collected: Result<Vec<_>, _> = records.collect();
    let results = collected.unwrap();
    assert_eq!(results.len(), 0);
}

#[test]
fn reader_test_car_records_single_at_protocol_record() {
    let mut car_data = create_car_header();
    car_data.extend_from_slice(&create_at_protocol_entry("app.bsky.feed.post", "Hello world!"));
    let records = CarRecords::from_bytes(car_data).unwrap();
    let collected: Result<Vec<_>, _> = records.collect();
    let results = collected.unwrap();
    assert_eq!(results.len(), 1);
    let (record_type, cbor_data, _cid) = &results[0];
    assert_eq!(record_type, "app.bsky.feed.post");
    let decoded: serde_cbor::Value = serde_cbor::from_slice(cbor_data).unwrap();
    if let serde_cbor::Value::Map(map) = decoded {
        assert_eq!(
            map.get(&serde_cbor::Value::Text("text".to_string())),
            Some(&serde_cbor::Value::Text("Hello world!".to_string()))
        );
    } else {
        panic!("Expected CBOR map");
    }
}

#[test]
fn reader_test_car_records_multiple_records() {
    let mut car_data = create_car_header();
    car_data.extend_from_slice(&create_at_protocol_entry("app.bsky.feed.post", "First post"));
    car_data.extend_from_slice(&create_at_protocol_entry("app.bsky.actor.profile", "My profile"));
    car_data.extend_from_slice(&create_non_at_protocol_entry());
    car_data.extend_from_slice(&create_at_protocol_entry("app.bsky.feed.like", "Like this"));
    let records = CarRecords::from_bytes(car_data).unwrap();
    let collected: Result<Vec<_>, _> = records.collect();
    let results = collected.unwrap();
    assert_eq!(results.len(), 3);
    let (type1, _, _) = &results[0];
    let (type2, _, _) = &results[1];
    let (type3, _, _) = &results[2];
    assert_eq!(type1, "app.bsky.feed.post");
    assert_eq!(type2, "app.bsky.actor.profile");
    assert_eq!(type3, "app.bsky.feed.like");
}

#[test]
fn reader_test_car_records_filters_non_at_protocol() {
    let mut car_data = create_car_header();
    car_data.extend_from_slice(&create_non_at_protocol_entry());
    car_data.extend_from_slice(&create_non_at_protocol_entry());
    let records = CarRecords::from_bytes(car_data).unwrap();
    let collected: Result<Vec<_>, _> = records.collect();
    let results = collected.unwrap();
    assert_eq!(results.len(), 0);
}

#[test]
fn reader_test_sync_car_reader_iterator() {
    let mut car_data = create_car_header();
    car_data.extend_from_slice(&create_at_protocol_entry("app.bsky.feed.post", "Test post"));
    let car_reader = SyncCarReader::from_bytes(&car_data).unwrap();
    let entries: Result<Vec<_>, _> = car_reader.collect();
    let results = entries.unwrap();
    assert_eq!(results.len(), 1);
    let entry = &results[0];
    assert_eq!(entry.cid.version, 1);
    assert_eq!(entry.cid.codec, 0x71);
    assert_eq!(entry.cid.digest_type, 0x12);
    assert_eq!(entry.cid.digest.len(), 32);
    let decoded: serde_cbor::Value = serde_cbor::from_slice(&entry.bytes).unwrap();
    if let serde_cbor::Value::Map(map) = decoded {
        assert_eq!(
            map.get(&serde_cbor::Value::Text("$type".to_string())),
            Some(&serde_cbor::Value::Text("app.bsky.feed.post".to_string()))
        );
    } else {
        panic!("Expected CBOR map");
    }
}

fn header_error(map: &[u8]) -> String {
    let mut bytes = vec![map.len() as u8];
    bytes.extend_from_slice(map);
    let mut reader = SyncByteReader::new(&bytes);
    match read_header(&mut reader) {
        Ok(_) => panic!("header accepted"),
        Err(e) => e.message(),
    }
}

#[test]
fn header_errors_say_what_is_wrong() {
    // {"version": 1}
    let mut no_roots = vec![0xA1, 0x67];
    no_roots.extend_from_slice(b"version");
    no_roots.push(0x01);
    assert_eq!(header_error(&no_roots), "Invalid CAR header: Missing roots");
    // {"roots": []}
    let mut no_version = vec![0xA1, 0x65];
    no_version.extend_from_slice(b"roots");
    no_version.push(0x80);
    assert_eq!(header_error(&no_version), "Invalid CAR header: Missing version");
    // {"version": 2}
    let mut v2 = vec![0xA1, 0x67];
    v2.extend_from_slice(b"version");
    v2.push(0x02);
    assert_eq!(header_error(&v2), "Invalid CAR header: Unsupported version: 2");
    // {"version": 1, "roots": 5}
    let mut bad_roots = vec![0xA2, 0x67];
    bad_roots.extend_from_slice(b"version");
    bad_roots.extend_from_slice(&[0x01, 0x65]);
    bad_roots.extend_from_slice(b"roots");
    bad_roots.push(0x05);
    assert_eq!(header_error(&bad_roots), "Invalid CAR header: Roots is not an array");
    // 7, not a map
    assert_eq!(header_error(&[0x07]), "Invalid CAR header: Header is not a map");
    // {"version": 1, "roots": [7]}
    let mut bad_root = vec![0xA2, 0x67];
    bad_root.extend_from_slice(b"version");
    bad_root.extend_from_slice(&[0x01, 0x65]);
    bad_root.extend_from_slice(b"roots");
    bad_root.extend_from_slice(&[0x81, 0x07]);
    assert_eq!(header_error(&bad_root), "Invalid CAR header: Root CID must be bytes or link");
}

#[test]
fn cbor_errors_say_what_is_wrong() {
    let msg = |b: &[u8]| decode_cbor(b).err().map(|e| e.message());
    assert_eq!(msg(&[0xF7]), Some("Invalid CAR header: Unsupported CBOR simple value".to_string()));
    assert_eq!(msg(&[0x1C]), Some("Invalid CAR header: Invalid additional info in CBOR".to_string()));
    assert_eq!(msg(&[0xD8, 0x2B, 0x01]), Some("Invalid CAR header: Unsupported tag: 43".to_string()));
    assert_eq!(msg(&[0xD8, 0x2A, 0x40]), Some("Invalid CAR header: Empty CID link".to_string()));
    assert_eq!(msg(&[0xD8, 0x2A, 0x01]), Some("Invalid CAR header: CID link must be bytes".to_string()));
    assert_eq!(msg(&[]), Some("Unexpected end of data".to_string()));
}
