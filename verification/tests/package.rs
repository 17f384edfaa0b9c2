use mc_server::protocol::reader::{ProtocolReader, ReadProtocol};
use mc_server::protocol::package::{package_body_len, Package};
use mc_server::protocol::types::serialize::Serialize;
use mc_server::protocol::types::{MString, VarInt};
use mc_server::protocol::{ErrorKind, ProtocolError};

#[test]
fn try_new_counts_id_and_data() {
    let p = Package::try_new(0, vec![1, 2, 3]).unwrap();
    assert_eq!(p.id, 0);
    assert_eq!(p.length, 4);
    assert_eq!(p.data, vec![1, 2, 3]);
    let p = Package::try_new(300, vec![]).unwrap();
    assert_eq!(p.length, 2);
}

#[test]
fn package_serialize_layout() {
    let p = Package::try_new(0x10, vec![7, 8]).unwrap();
    assert_eq!(p.serialize().unwrap(), vec![3, 0x10, 7, 8]);
    let q = Package::new(300, 1, vec![9]);
    assert_eq!(q.serialize().unwrap(), vec![1, 0xAC, 0x02, 9]);
}

#[test]
fn from_serializiable_uses_bytes() {
    let p = Package::from_serializiable(2, VarInt(300)).unwrap();
    assert_eq!(p.data, vec![0xAC, 0x02]);
    assert_eq!(p.length, 3);
    let bad = MString { size: VarInt(-3), value: String::from("x") };
    assert_eq!(
        Package::from_serializiable(2, bad).unwrap_err(),
        ProtocolError(ErrorKind::NegativeLength)
    );
}

#[test]
fn from_serializiable_iter_skips_failures() {
    let items = vec![
        MString { size: VarInt(1), value: String::from("a") },
        MString { size: VarInt(-1), value: String::from("zz") },
        MString { size: VarInt(2), value: String::from("bc") },
    ];
    let p = Package::from_serializiable_iter(1, items).unwrap();
    assert_eq!(p.data, vec![1, b'a', 2, b'b', b'c']);
    assert_eq!(p.length, 6);
    assert_eq!(p.id, 1);
}

#[test]
fn body_len() {
    assert_eq!(package_body_len(10, 3).unwrap(), 8);
    assert_eq!(package_body_len(3, 3).unwrap(), 1);
    assert_eq!(package_body_len(2, 3).unwrap_err(), ProtocolError(ErrorKind::NegativeLength));
}

#[test]
fn package_round_trip_when_sizes_agree() {
    let p = Package::new(1, 3, vec![10, 11, 12]);
    let mut bytes = p.serialize().unwrap();
    bytes.push(99);
    let mut r = ProtocolReader::new(bytes);
    let back = r.try_read_package().unwrap();
    assert_eq!(back.length, 3);
    assert_eq!(back.id, 1);
    assert_eq!(back.data, vec![10, 11, 12]);
}

#[test]
fn package_from_try_new_does_not_read_back() {
    let p = Package::try_new(0, vec![]).unwrap();
    let bytes = p.serialize().unwrap();
    assert_eq!(bytes, vec![1, 0]);
    let mut r = ProtocolReader::new(bytes);
    assert_eq!(r.try_read_package().unwrap_err(), ProtocolError(ErrorKind::UnexpectedEof));
}

#[test]
fn from_serializiable_error_whatever_the_id() {
    let bad = MString { size: VarInt(-1), value: String::new() };
    assert_eq!(
        Package::from_serializiable(-5, bad).unwrap_err(),
        ProtocolError(ErrorKind::NegativeLength)
    );
}
