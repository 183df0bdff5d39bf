use varmint::len_u64_varint;
use varmint::len_usize_varint;

#[test]
fn len_zero() {
    assert_eq!(len_u64_varint(0), 1);
    assert_eq!(len_usize_varint(0), 1);
}

#[test]
fn len_one() {
    assert_eq!(len_u64_varint(1), 1);
    assert_eq!(len_usize_varint(1), 1);
}

#[test]
fn one_byte_threshold_below() {
    assert_eq!(len_u64_varint(0x7F), 1);
    assert_eq!(len_usize_varint(0x7F), 1);
}

#[test]
fn one_byte_threshold_above() {
    assert_eq!(len_u64_varint(0x80), 2);
    assert_eq!(len_usize_varint(0x80), 2);
}

#[test]
fn len_some() {
    assert_eq!(len_u64_varint(0x12C), 2);
    assert_eq!(len_usize_varint(0x12C), 2);
}

#[test]
fn len_many() {
    assert_eq!(len_u64_varint(0x4B3FB5), 4);
    assert_eq!(len_usize_varint(0x4B3FB5), 4);
}

#[test]
fn len_half() {
    assert_eq!(len_u64_varint(0x7FFFFFFFFFFFFFFF), 9);
}

#[test]
fn len_all() {
    assert_eq!(len_u64_varint(0xFFFFFFFFFFFFFFFF), 10);
}
