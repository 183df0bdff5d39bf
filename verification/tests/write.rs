use varmint::WriteVarInt;

#[test]
fn write_zero() {
    let mut bytes: Vec<u8> = vec![];
    let expected: &[u8] = &[0];
    bytes.write_u64_varint(0).unwrap();
    assert_eq!(&bytes[..], expected);
}

#[test]
fn write_one() {
    let mut bytes: Vec<u8> = vec![];
    let expected: &[u8] = &[1];
    bytes.write_u64_varint(1).unwrap();
    assert_eq!(&bytes[..], expected);
}

#[test]
fn write_some() {
    let mut bytes: Vec<u8> = vec![];
    let expected: &[u8] = &[0xAC, 0x02];
    bytes.write_u64_varint(0x12C).unwrap();
    assert_eq!(&bytes[..], expected);
}

#[test]
fn write_many() {
    let mut bytes: Vec<u8> = vec![];
    let expected: &[u8] = &[0xB5, 0xFF, 0xAC, 0x02];
    bytes.write_u64_varint(0x4B3FB5).unwrap();
    assert_eq!(&bytes[..], expected);
}

#[test]
fn write_half() {
    let mut bytes: Vec<u8> = vec![];
    let expected: &[u8] = &[
        0xFF, 0xFF, 0xFF, 0xFF,
        0xFF, 0xFF, 0xFF, 0xFF,
        0x7F,
    ];
    bytes.write_u64_varint(0x7FFFFFFFFFFFFFFF).unwrap();
    assert_eq!(&bytes[..], expected);
}

#[test]
fn write_all() {
    let mut bytes: Vec<u8> = vec![];
    let expected: &[u8] = &[
        0xFF, 0xFF, 0xFF, 0xFF,
        0xFF, 0xFF, 0xFF, 0xFF,
        0xFF, 0x01,
    ];
    bytes.write_u64_varint(0xFFFFFFFFFFFFFFFF).unwrap();
    assert_eq!(&bytes[..], expected);
}
