use varmint::ByteSource;
use varmint::ReadVarInt;
use varmint::VarintError;
use varmint::WriteVarInt;
use varmint::len_u64_varint;

fn encode(val: u64) -> Vec<u8> {
    let mut bytes: Vec<u8> = vec![];
    bytes.write_u64_varint(val).unwrap();
    bytes
}

#[test]
fn round_trip() {
    let values: &[u64] = &[
        0,
        1,
        0x7F,
        0x80,
        0x12C,
        0x4B3FB5,
        0x7FFFFFFFFFFFFFFF,
        0x8000000000000000,
        0xFFFFFFFFFFFFFFFF,
    ];
    for &val in values {
        let mut bytes = ByteSource::new(encode(val));
        assert_eq!(bytes.read_u64_varint().unwrap(), val);
    }
}

#[test]
fn length_matches_encoding() {
    let values: &[u64] = &[
        0,
        1,
        0x7F,
        0x80,
        0x12C,
        0x4B3FB5,
        0x7FFFFFFFFFFFFFFF,
        0xFFFFFFFFFFFFFFFF,
    ];
    for &val in values {
        assert_eq!(len_u64_varint(val), encode(val).len());
    }
}

#[test]
fn overflow_is_reported_as_such() {
    let mut bytes = ByteSource::new(vec![
        0xFF, 0xFF, 0xFF, 0xFF,
        0xFF, 0xFF, 0xFF, 0xFF,
        0xFF, 0x02,
    ]);
    assert_eq!(bytes.read_u64_varint(), Err(VarintError::Overflow));
}

#[test]
fn read_from_empty_source_is_an_error() {
    let mut bytes = ByteSource::new(vec![]);
    assert_eq!(bytes.read_u64_varint(), Err(VarintError::UnexpectedEof));
}

#[test]
fn truncated_varint_is_an_error() {
    let mut bytes = ByteSource::new(vec![0x80]);
    assert_eq!(bytes.read_u64_varint(), Err(VarintError::UnexpectedEof));
}

#[test]
fn truncated_varint_is_an_error_even_when_trying() {
    let mut bytes = ByteSource::new(vec![0xFF, 0xFF]);
    assert_eq!(bytes.try_read_u64_varint(), Err(VarintError::UnexpectedEof));
}

#[test]
fn reads_consume_exactly_one_varint() {
    let mut bytes = ByteSource::new(vec![0xAC, 0x02, 0x05, 0x80]);
    assert_eq!(bytes.read_u64_varint().unwrap(), 0x12C);
    assert_eq!(bytes.read_u64_varint().unwrap(), 5);
    assert_eq!(bytes.read_u64_varint(), Err(VarintError::UnexpectedEof));
}

#[test]
fn non_minimal_encodings_are_accepted() {
    let mut bytes = ByteSource::new(vec![0x80, 0x00]);
    assert_eq!(bytes.read_u64_varint().unwrap(), 0);
}

#[test]
fn usize_variants_agree_with_u64() {
    let mut bytes = ByteSource::new(vec![0xB5, 0xFF, 0xAC, 0x02]);
    assert_eq!(bytes.read_usize_varint().unwrap(), 0x4B3FB5);
    let mut more = ByteSource::new(vec![0xAC, 0x02]);
    assert_eq!(more.try_read_usize_varint().unwrap(), Some(0x12C));
    let mut empty = ByteSource::new(vec![]);
    assert_eq!(empty.try_read_usize_varint().unwrap(), None);
    let mut sink: Vec<u8> = vec![];
    sink.write_usize_varint(0x4B3FB5).unwrap();
    assert_eq!(&sink[..], &[0xB5, 0xFF, 0xAC, 0x02]);
}

#[test]
fn continuation_rule() {
    assert!(varmint::varint_needs_more(0x80, 1));
    assert!(varmint::varint_needs_more(0xFF, 9));
    assert!(!varmint::varint_needs_more(0x05, 1));
    assert!(!varmint::varint_needs_more(0xFF, 10));
}

#[test]
fn tenth_byte_must_be_exactly_one() {
    let mut zero_tail = ByteSource::new(vec![
        0xFF, 0xFF, 0xFF, 0xFF,
        0xFF, 0xFF, 0xFF, 0xFF,
        0xFF, 0x00,
    ]);
    assert_eq!(zero_tail.read_u64_varint(), Err(VarintError::Overflow));
    let mut flagged_tail = ByteSource::new(vec![
        0xFF, 0xFF, 0xFF, 0xFF,
        0xFF, 0xFF, 0xFF, 0xFF,
        0xFF, 0x81,
    ]);
    assert_eq!(flagged_tail.read_u64_varint(), Err(VarintError::Overflow));
}
