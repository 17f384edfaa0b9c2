//! Building blocks of a Minecraft server: the wire protocol's variable-length
//! integers, strings, UUIDs and packages, the reader that decodes them from a
//! byte buffer, and the connection's handshake state.
pub mod connection;
pub mod connection_state;
pub mod protocol;
