use mc_server::connection::Connection;
use mc_server::connection_state::{test_response, ConnectionState};
use mc_server::protocol::package::Package;
use mc_server::protocol::types::VarInt;
use mc_server::protocol::{ErrorKind, ProtocolError};

fn handshake_payload() -> Vec<u8> {
    let mut data = vec![0xFF, 0x05]; // protocol 767
    data.push(9);
    data.extend_from_slice(b"localhost");
    data.extend_from_slice(&[0x63, 0xDD]); // port 25565
    data.push(1); // next state
    data.push(0); // the extra byte a read package carries
    data
}

#[test]
fn handshake_reads_fields_and_moves_state() {
    let mut c = Connection::new();
    assert_eq!(c.get_state(), ConnectionState::Uninitialized);
    let p = Package::new(0, 0, handshake_payload());
    let h = c.try_handshake(p).unwrap();
    assert_eq!(h.protocol_version, 767);
    assert_eq!(h.server_address.size, VarInt(9));
    assert_eq!(h.server_address.value, "localhost");
    assert_eq!(h.server_port, 25565);
    assert_eq!(h.next_state, 1);
    assert_eq!(c.get_state(), ConnectionState::Handshaking);
}

#[test]
fn failed_handshake_keeps_state() {
    let mut c = Connection::new();
    let mut data = handshake_payload();
    data.truncate(12); // cut inside the port
    let e = c.try_handshake(Package::new(0, 0, data)).unwrap_err();
    assert_eq!(e, ProtocolError(ErrorKind::UnexpectedEof));
    assert_eq!(c.get_state(), ConnectionState::Uninitialized);
}

#[test]
fn state_codes() {
    assert_eq!(ConnectionState::Uninitialized.code(), 0);
    assert_eq!(ConnectionState::Handshaking.code(), 1);
    assert_eq!(ConnectionState::Login.code(), 2);
    assert_eq!(ConnectionState::Configuration.code(), 3);
    assert_eq!(ConnectionState::Play.code(), 4);
}

#[test]
fn fixed_status_response() {
    let r = test_response();
    assert_eq!(r.favicon, "");
    assert_eq!(r.description.text, "RUST");
    assert!(!r.enforces_secure_chat);
    assert_eq!(r.players.max, 1);
    assert_eq!(r.players.online, 0);
    assert!(r.players.sample.is_empty());
    assert_eq!(r.version.name, "1.20.1");
    assert_eq!(r.version.protocol, 767);
}

#[test]
fn state_is_handshaking_once_a_handshake_succeeded() {
    let mut c = Connection::new();
    assert!(c.try_handshake(Package::new(0, 0, vec![0x80])).is_err());
    assert_eq!(c.get_state(), ConnectionState::Uninitialized);
    assert!(c.try_handshake(Package::new(0, 0, handshake_payload())).is_ok());
    assert_eq!(c.get_state(), ConnectionState::Handshaking);
    assert!(c.try_handshake(Package::new(0, 0, vec![])).is_err());
    assert_eq!(c.get_state(), ConnectionState::Handshaking);
}
