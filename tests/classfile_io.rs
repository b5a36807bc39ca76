use maya_classfile::bytes::{write_u16, write_u32, write_u64, ByteReader, BytesError};
use maya_classfile::io::{IOAttributeInfo, IOClassFile, IOClassfileError, IOCpTag, IOFieldInfo};

fn minimal() -> Vec<u8> {
    vec![
        0xCA, 0xFE, 0xBA, 0xBE, 0x00, 0x00, 0x00, 0x34, 0x00, 0x01, 0x00, 0x00, 0x00, 0x00, 0x00,
        0x00, 0x00, 0x00, 0x00, 0x00, 0x00, 0x00, 0x00, 0x00,
    ]
}

#[test]
fn magic_rejection() {
    let data = [0u8; 24];
    let mut r = ByteReader::new(&data);
    assert!(matches!(IOClassFile::read(&mut r), Err(IOClassfileError::InvalidMagic)));
}

#[test]
fn short_input_is_not_enough_data() {
    let data = [0xCAu8, 0xFE];
    let mut r = ByteReader::new(&data);
    assert!(matches!(
        IOClassFile::read(&mut r),
        Err(IOClassfileError::Bytes(BytesError::NotEnoughData))
    ));
}

#[test]
fn minimal_class_round_trips() {
    let data = minimal();
    let mut r = ByteReader::new(&data);
    let cf = IOClassFile::read(&mut r).unwrap();
    assert_eq!(r.pos, data.len());
    assert_eq!(cf.major_version, 52);
    assert_eq!(cf.cp_count, 1);
    assert!(cf.cp.is_empty());
    assert!(cf.interfaces.is_empty() && cf.fields.is_empty() && cf.methods.is_empty());
    let mut out = Vec::new();
    cf.write(&mut out);
    assert_eq!(out, data);
}

#[test]
fn zero_pool_count_is_refused() {
    let mut data = minimal();
    data[9] = 0;
    let mut r = ByteReader::new(&data);
    assert!(matches!(IOClassFile::read(&mut r), Err(IOClassfileError::BadPoolCount)));
}

fn with_pool(cp_count: u16, pool: &[u8]) -> Vec<u8> {
    let mut data = vec![0xCA, 0xFE, 0xBA, 0xBE, 0x00, 0x00, 0x00, 0x34];
    write_u16(&mut data, cp_count);
    data.extend_from_slice(pool);
    data.extend_from_slice(&[0u8; 14]);
    data
}

#[test]
fn long_straddles_two_slots() {
    let pool = [5u8, 0, 0, 0, 0, 0, 0, 0, 5, 1, 0, 1, b'x'];
    let data = with_pool(4, &pool);
    let mut r = ByteReader::new(&data);
    let cf = IOClassFile::read(&mut r).unwrap();
    assert_eq!(cf.cp.len(), 3);
    assert!(matches!(cf.cp[0], IOCpTag::Long { bytes: [0, 0, 0, 0, 0, 0, 0, 5] }));
    assert!(matches!(cf.cp[1], IOCpTag::Reserved));
    match &cf.cp[2] {
        IOCpTag::Utf8 { length, bytes } => {
            assert_eq!(*length, 1);
            assert_eq!(bytes, &vec![b'x']);
        }
        other => panic!("unexpected {other:?}"),
    }
    assert_eq!(cf.cp_count as usize, cf.cp.len() + 1);
    let mut out = Vec::new();
    cf.write(&mut out);
    assert_eq!(out, data);
}

#[test]
fn long_as_last_slot() {
    let pool = [6u8, 0x3F, 0xF0, 0, 0, 0, 0, 0, 0];
    let data = with_pool(3, &pool);
    let mut r = ByteReader::new(&data);
    let cf = IOClassFile::read(&mut r).unwrap();
    assert_eq!(cf.cp.len(), 2);
    assert!(matches!(cf.cp[1], IOCpTag::Reserved));
}

#[test]
fn long_past_the_declared_count_is_refused() {
    let pool = [5u8, 0, 0, 0, 0, 0, 0, 0, 5];
    let data = with_pool(2, &pool);
    let mut r = ByteReader::new(&data);
    assert!(matches!(IOClassFile::read(&mut r), Err(IOClassfileError::BadPoolCount)));
}

#[test]
fn unknown_pool_tag() {
    let data = with_pool(2, &[2u8, 0, 0]);
    let mut r = ByteReader::new(&data);
    assert!(matches!(IOClassFile::read(&mut r), Err(IOClassfileError::UnknownCpTag(2))));
}

#[test]
fn every_pool_entry_kind_round_trips() {
    let entries: Vec<u8> = vec![
        1, 0, 2, b'h', b'i', 3, 0, 0, 0, 7, 4, 0x3F, 0x80, 0, 0, 7, 0, 1, 8, 0, 1, 9, 0, 4, 0, 7,
        10, 0, 4, 0, 7, 11, 0, 4, 0, 7, 12, 0, 1, 0, 1, 15, 1, 0, 6, 16, 0, 1, 18, 0, 0, 0, 9, 19,
        0, 1, 20, 0, 1,
    ];
    let mut r = ByteReader::new(&entries);
    let mut tags = Vec::new();
    let mut out = Vec::new();
    while r.remaining() > 0 {
        let t = IOCpTag::read(&mut r).unwrap();
        tags.push(t.id());
        t.write(&mut out);
    }
    assert_eq!(tags, vec![1, 3, 4, 7, 8, 9, 10, 11, 12, 15, 16, 18, 19, 20]);
    assert_eq!(out, entries);
}

#[test]
fn package_and_reserved_ids() {
    assert_eq!(IOCpTag::Package { name_index: 1 }.id(), 20);
    assert_eq!(IOCpTag::Module { name_index: 1 }.id(), 19);
    assert_eq!(IOCpTag::Reserved.id(), 0);
}

#[test]
fn attribute_info_reads_its_payload() {
    let data = [0u8, 3, 0, 0, 0, 2, 0xAB, 0xCD, 0xEE];
    let mut r = ByteReader::new(&data);
    let a = IOAttributeInfo::read(&mut r).unwrap();
    assert_eq!(a.attribute_name_index, 3);
    assert_eq!(a.attribute_length, 2);
    assert_eq!(a.info, vec![0xAB, 0xCD]);
    assert_eq!(r.pos, 8);
    let mut out = Vec::new();
    a.write(&mut out);
    assert_eq!(out, data[..8].to_vec());
}

#[test]
fn attribute_payload_too_short() {
    let data = [0u8, 3, 0, 0, 0, 5, 1];
    let mut r = ByteReader::new(&data);
    assert!(matches!(IOAttributeInfo::read(&mut r), Err(BytesError::NotEnoughData)));
    assert_eq!(r.pos, 6);
}

#[test]
fn field_with_empty_attribute_round_trips() {
    let data = [0u8, 1, 0, 2, 0, 3, 0, 1, 0, 4, 0, 0, 0, 0];
    let mut r = ByteReader::new(&data);
    let f = IOFieldInfo::read(&mut r).unwrap();
    assert_eq!(f.attributes_count, 1);
    assert_eq!(f.attributes[0].attribute_length, 0);
    let mut out = Vec::new();
    f.write(&mut out);
    assert_eq!(out, data.to_vec());
}

#[test]
fn reader_reads_big_endian() {
    let data = [0x12u8, 0x34, 0x56, 0x78, 0x9A, 0xBC, 0xDE, 0xF0, 0xFF];
    let mut r = ByteReader::new(&data);
    assert_eq!(r.read_u16().unwrap(), 0x1234);
    assert_eq!(r.read_u32().unwrap(), 0x5678_9ABC);
    assert!(matches!(r.read_u32(), Err(BytesError::NotEnoughData)));
    assert_eq!(r.pos, 6);
    assert_eq!(r.read_i16().unwrap(), 0xDEF0u16 as i16);
    assert_eq!(r.read_i8().unwrap(), -1);
    assert!(r.len_check(1).is_err());
}

#[test]
fn writers_round_trip_extremes() {
    let mut out = Vec::new();
    write_u16(&mut out, u16::MAX);
    write_u32(&mut out, 0x0102_0304);
    write_u64(&mut out, u64::MAX - 1);
    let mut r = ByteReader::new(&out);
    assert_eq!(r.read_u16().unwrap(), u16::MAX);
    assert_eq!(r.read_u32().unwrap(), 0x0102_0304);
    assert_eq!(r.read_u64().unwrap(), u64::MAX - 1);
    let bytes = [0x80u8, 0, 0, 0, 0, 0, 0, 0];
    let mut r = ByteReader::new(&bytes);
    assert_eq!(r.read_i64().unwrap(), i64::MIN);
    let mut r = ByteReader::new(&bytes);
    let arr: [u8; 4] = r.read_n_bytes().unwrap();
    assert_eq!(arr, [0x80, 0, 0, 0]);
    assert_eq!(r.read_n_bytes_vec(4).unwrap(), vec![0, 0, 0, 0]);
}
