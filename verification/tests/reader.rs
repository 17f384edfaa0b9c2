use mc_server::protocol::decoded;
use mc_server::protocol::reader::{ProtocolReader, ReadProtocol};
use mc_server::protocol::types::serialize::Serialize;
use mc_server::protocol::types::{MString, VarInt, VarLong, UUID};
use mc_server::protocol::varnum::{DecodeStep, VarNumDecoder};
use mc_server::protocol::{ErrorKind, ProtocolError};

fn err(kind: ErrorKind) -> ProtocolError {
    ProtocolError(kind)
}

#[test]
fn read_var_int_one_byte() {
    let mut r = ProtocolReader::new(vec![0x7F, 0x01]);
    assert_eq!(r.try_read_var_int().unwrap(), decoded::VarInt { value: 127, length: 0 });
    assert_eq!(r.try_read_var_int().unwrap(), decoded::VarInt { value: 1, length: 0 });
}

#[test]
fn read_var_int_length_is_index_of_last_byte() {
    let mut r = ProtocolReader::new(vec![0x80, 0x80, 0x01]);
    assert_eq!(r.try_read_var_int().unwrap(), decoded::VarInt { value: 16_384, length: 2 });
}

#[test]
fn read_var_int_five_bytes_wraps_to_negative() {
    let mut r = ProtocolReader::new(vec![0xFF, 0xFF, 0xFF, 0xFF, 0x0F]);
    assert_eq!(r.try_read_var_int().unwrap(), decoded::VarInt { value: -1, length: 4 });
}

#[test]
fn read_var_int_too_long() {
    let mut r = ProtocolReader::new(vec![0x80, 0x80, 0x80, 0x80, 0x80, 0x05]);
    assert_eq!(r.try_read_var_int().unwrap_err(), err(ErrorKind::VarIntTooLong));
    // the five bytes are gone, the sixth is next
    assert_eq!(r.try_read_var_int().unwrap(), decoded::VarInt { value: 5, length: 0 });
}

#[test]
fn read_var_int_eof() {
    let mut r = ProtocolReader::new(vec![0x80, 0x80]);
    assert_eq!(r.try_read_var_int().unwrap_err(), err(ErrorKind::UnexpectedEof));
    let mut empty = ProtocolReader::new(vec![]);
    assert_eq!(empty.try_read_var_int().unwrap_err(), err(ErrorKind::UnexpectedEof));
}

#[test]
fn var_int_round_trip_examples() {
    for v in [0, 1, 127, 128, 255, 300, 16_384, 2_097_151, 2_097_152, i32::MAX] {
        let mut bytes = VarInt(v).serialize().unwrap();
        let n = bytes.len();
        bytes.push(0xAB);
        let mut r = ProtocolReader::new(bytes);
        let got = r.try_read_var_int().unwrap();
        assert_eq!(got.value, v);
        assert_eq!(got.length as usize, n - 1);
        assert_eq!(r.try_read_ushort().unwrap_err(), err(ErrorKind::UnexpectedEof));
    }
}

#[test]
fn var_long_round_trip_and_limit() {
    let v: i64 = 0x7_FFFF_FFFF; // just below 2^35
    let bytes = VarLong(v).serialize().unwrap();
    let mut r = ProtocolReader::new(bytes);
    assert_eq!(r.try_read_var_long().unwrap(), decoded::VarLong { value: v, length: 4 });

    let big: i64 = 0x8_0000_0000; // 2^35 needs six bytes
    let mut r = ProtocolReader::new(VarLong(big).serialize().unwrap());
    assert_eq!(r.try_read_var_long().unwrap_err(), err(ErrorKind::VarIntTooLong));
}

#[test]
fn read_ushort_big_endian() {
    let mut r = ProtocolReader::new(vec![0x63, 0xDD, 0x01]);
    assert_eq!(r.try_read_ushort().unwrap(), 25565);
    assert_eq!(r.try_read_ushort().unwrap_err(), err(ErrorKind::UnexpectedEof));
}

#[test]
fn read_uuid_little_endian() {
    let bytes: Vec<u8> = (1..=16).collect();
    let mut r = ProtocolReader::new(bytes.clone());
    let mut arr = [0u8; 16];
    arr.copy_from_slice(&bytes);
    assert_eq!(r.try_read_uuid().unwrap(), UUID(u128::from_le_bytes(arr)));
    assert_eq!(UUID(u128::from_le_bytes(arr)).0 & 0xFF, 1);
    let mut short = ProtocolReader::new(vec![0; 15]);
    assert_eq!(short.try_read_uuid().unwrap_err(), err(ErrorKind::UnexpectedEof));
}

#[test]
fn read_string() {
    let mut r = ProtocolReader::new(vec![9, b'l', b'o', b'c', b'a', b'l', b'h', b'o', b's', b't', 0x63]);
    let s = r.try_read_string().unwrap();
    assert_eq!(s.size, VarInt(9));
    assert_eq!(s.value, "localhost");
    assert_eq!(r.try_read_ushort().unwrap_err(), err(ErrorKind::UnexpectedEof));
}

#[test]
fn read_string_errors() {
    // negative size: 0xFF 0xFF 0xFF 0xFF 0x0F is -1
    let mut r = ProtocolReader::new(vec![0xFF, 0xFF, 0xFF, 0xFF, 0x0F, b'a']);
    assert_eq!(r.try_read_string().unwrap_err(), err(ErrorKind::NegativeLength));
    let mut r = ProtocolReader::new(vec![3, b'a']);
    assert_eq!(r.try_read_string().unwrap_err(), err(ErrorKind::UnexpectedEof));
    let mut r = ProtocolReader::new(vec![2, 0xC3, 0x28]);
    assert_eq!(r.try_read_string().unwrap_err(), err(ErrorKind::InvalidUtf8));
}

#[test]
fn string_round_trip() {
    let text = "Grüße, 世界";
    let s = MString { size: VarInt(text.len() as i32), value: String::from(text) };
    let mut r = ProtocolReader::new(s.serialize().unwrap());
    let back = r.try_read_string().unwrap();
    assert_eq!(back.size, s.size);
    assert_eq!(back.value, text);
}

#[test]
fn read_package_takes_one_more_byte_than_length_less_id() {
    // length 3, id 1: 3 - 1 + 1 = 3 payload bytes
    let mut r = ProtocolReader::new(vec![3, 1, 10, 20, 30, 40]);
    let p = r.try_read_package().unwrap();
    assert_eq!(p.length, 3);
    assert_eq!(p.id, 1);
    assert_eq!(p.data, vec![10, 20, 30]);
    assert_eq!(r.try_read_var_int().unwrap().value, 40);
}

#[test]
fn read_package_errors() {
    let mut r = ProtocolReader::new(vec![1, 2]);
    assert_eq!(r.try_read_package().unwrap_err(), err(ErrorKind::NegativeLength));
    let mut r = ProtocolReader::new(vec![5, 0, 1]);
    assert_eq!(r.try_read_package().unwrap_err(), err(ErrorKind::UnexpectedEof));
    let mut r = ProtocolReader::new(vec![5]);
    assert_eq!(r.try_read_package().unwrap_err(), err(ErrorKind::UnexpectedEof));
}

#[test]
fn decoder_byte_by_byte() {
    let d = VarNumDecoder::new();
    let d = match d.step(0xAC) {
        DecodeStep::Continue(d) => d,
        _ => panic!("expected more"),
    };
    match d.step(0x02) {
        DecodeStep::Done { sum, last_index } => {
            assert_eq!(sum, 300);
            assert_eq!(last_index, 1);
        }
        _ => panic!("expected the end"),
    }
    let mut d = VarNumDecoder::new();
    for _ in 0..4 {
        d = match d.step(0x80) {
            DecodeStep::Continue(d) => d,
            _ => panic!("expected more"),
        };
    }
    assert!(matches!(d.step(0x80), DecodeStep::TooLong));
}
