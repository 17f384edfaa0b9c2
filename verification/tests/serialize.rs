use mc_server::protocol::types::serialize::Serialize;
use mc_server::protocol::types::{MString, VarInt, VarLong};
use mc_server::protocol::{ErrorKind, ProtocolError};

#[test]
fn serialize_one_byte() {
    let v = 127;
    let varint = VarInt(v);
    assert_eq!(varint.serialize().unwrap(), vec![127])
}

#[test]
fn serialize_more_bytes() {
    let v = 255;
    let varint = VarInt(v);
    assert_eq!(varint.serialize().unwrap(), vec![0xFF, 0x1])
}

#[test]
fn serialize_two_bytes() {
    let v = 300;
    let varint = VarInt(v);
    assert_eq!(varint.serialize().unwrap(), vec![0xAC, 0x02]);
}

#[test]
fn serialize_three_bytes() {
    let v = 16_384;
    let varint = VarInt(v);
    assert_eq!(varint.serialize().unwrap(), vec![0x80, 0x80, 0x01]);
}

#[test]
fn serialize_zero() {
    assert_eq!(VarInt(0).serialize().unwrap(), vec![0]);
}

#[test]
fn serialize_var_int_max_takes_five_bytes() {
    assert_eq!(
        VarInt(i32::MAX).serialize().unwrap(),
        vec![0xFF, 0xFF, 0xFF, 0xFF, 0x07]
    );
}

#[test]
fn serialize_var_long() {
    assert_eq!(VarLong(300).serialize().unwrap(), vec![0xAC, 0x02]);
    assert_eq!(
        VarLong(i64::MAX).serialize().unwrap(),
        vec![0xFF, 0xFF, 0xFF, 0xFF, 0xFF, 0xFF, 0xFF, 0xFF, 0x7F]
    );
}

#[test]
fn serialize_i64_big_endian() {
    assert_eq!(
        0x0102_0304_0506_0708i64.serialize().unwrap(),
        vec![1, 2, 3, 4, 5, 6, 7, 8]
    );
    assert_eq!((-1i64).serialize().unwrap(), vec![0xFF; 8]);
}

#[test]
fn serialize_string_with_size() {
    let s = MString { size: VarInt(5), value: String::from("héllo") };
    let mut expected = vec![5u8];
    expected.extend_from_slice("héllo".as_bytes());
    assert_eq!(s.serialize().unwrap(), expected);
}

#[test]
fn serialize_string_keeps_size_field_as_given() {
    let s = MString { size: VarInt(300), value: String::from("ab") };
    assert_eq!(s.serialize().unwrap(), vec![0xAC, 0x02, b'a', b'b']);
}

#[test]
fn serialize_string_negative_size_fails() {
    let s = MString { size: VarInt(-1), value: String::from("ab") };
    assert_eq!(s.serialize().unwrap_err(), ProtocolError(ErrorKind::NegativeLength));
}
