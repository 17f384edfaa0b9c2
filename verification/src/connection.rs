use vstd::prelude::*;

use crate::connection_state::ConnectionState;
use crate::protocol::ProtocolError;
use crate::protocol::package::Package;
use crate::protocol::reader::{
    exact_consumed, string_consumed, string_outcome, ushort_outcome, var_int_outcome,
    ReadProtocol,
};
use crate::protocol::types::{MString, VarInt};
use crate::protocol::varnum::var_num_consumed;

verus! {

/// The fields of a handshake package, in the order they come.
#[derive(Debug, Clone)]
pub struct Handshake {
    pub protocol_version: i32,
    pub server_address: MString,
    pub server_port: u16,
    pub next_state: i32,
}

/// What reading a handshake from the payload `s` gives: the protocol version,
/// the server address (its size field and its characters), the port and the
/// next state.
pub open spec fn handshake_outcome(s: Seq<u8>) -> Result<
    (i32, (i32, Seq<char>), u16, i32),
    ProtocolError,
> {
    let s1 = s.skip(var_num_consumed(s) as int);
    let s2 = s1.skip(string_consumed(s1) as int);
    let s3 = s2.skip(exact_consumed(s2, 2) as int);
    match var_int_outcome(s) {
        Err(e) => Err(e),
        Ok(version) => match string_outcome(s1) {
            Err(e) => Err(e),
            Ok(address) => match ushort_outcome(s2) {
                Err(e) => Err(e),
                Ok(port) => match var_int_outcome(s3) {
                    Err(e) => Err(e),
                    Ok(next) => Ok((version.value, address, port, next.value)),
                },
            },
        },
    }
}

/// A client's connection, as far as the protocol's state goes.
#[derive(Debug)]
pub struct Connection {
    state: ConnectionState,
}

impl View for Connection {
    type V = ConnectionState;

    closed spec fn view(&self) -> ConnectionState {
        self.state
    }
}

/// The state after a handshake attempt from `state`: handshaking where the
/// attempt succeeded, unchanged otherwise.
pub open spec fn after_handshake(state: ConnectionState, succeeded: bool) -> ConnectionState {
    if succeeded {
        ConnectionState::Handshaking
    } else {
        state
    }
}

/// The state of a new connection after handshake attempts with the given
/// outcomes, in order.
pub open spec fn state_after_attempts(outcomes: Seq<bool>) -> ConnectionState
    decreases outcomes.len(),
{
    if outcomes.len() == 0 {
        ConnectionState::Uninitialized
    } else {
        after_handshake(state_after_attempts(outcomes.drop_last()), outcomes.last())
    }
}

/// A new connection is handshaking after a run of handshake attempts exactly
/// when one of them succeeded, and uninitialized otherwise; no other state is
/// ever reached.
pub proof fn lemma_state_after_attempts(outcomes: Seq<bool>)
    ensures
        state_after_attempts(outcomes) == if outcomes.contains(true) {
            ConnectionState::Handshaking
        } else {
            ConnectionState::Uninitialized
        },
    decreases outcomes.len(),
{
    if outcomes.len() > 0 {
        let init = outcomes.drop_last();
        lemma_state_after_attempts(init);
        if outcomes.last() {
            assert(outcomes.contains(true)) by {
                assert(outcomes[outcomes.len() - 1] == true);
            }
        } else if outcomes.contains(true) {
            let k = choose|k: int| 0 <= k < outcomes.len() && outcomes[k] == true;
            assert(k < outcomes.len() - 1);
            assert(init[k] == true);
        } else {
            assert(!init.contains(true)) by {
                if init.contains(true) {
                    let k = choose|k: int| 0 <= k < init.len() && init[k] == true;
                    assert(outcomes[k] == true);
                }
            }
        }
    }
}

impl Connection {
    #[verifier::type_invariant]
    closed spec fn inv(self) -> bool {
        self.state == ConnectionState::Uninitialized || self.state == ConnectionState::Handshaking
    }

    /// A connection that has not shaken hands yet.
    pub fn new() -> (c: Connection)
        ensures
            c@ == ConnectionState::Uninitialized,
    {
        Connection { state: ConnectionState::Uninitialized }
    }

    /// The state the connection is in: it has not shaken hands, or it is
    /// handshaking.
    pub fn get_state(&self) -> (s: ConnectionState)
        ensures
            s == self@,
            s == ConnectionState::Uninitialized || s == ConnectionState::Handshaking,
    {
        proof {
            use_type_invariant(self);
        }
        self.state
    }

    /// Reads the handshake from its package. On success the connection is
    /// handshaking; on failure it stays as it was.
    pub fn try_handshake(&mut self, package: Package) -> (r: Result<Handshake, ProtocolError>)
        ensures
            match handshake_outcome(package.payload()) {
                Ok((version, (size, address), port, next)) => {
                    &&& r matches Ok(h) && h.protocol_version == version
                        && h.server_address.size == VarInt(size) && h.server_address.value@
                        == address && h.server_port == port && h.next_state == next
                    &&& final(self)@ == ConnectionState::Handshaking
                },
                Err(e) => {
                    &&& r matches Err(e2) && e2 == e
                    &&& final(self)@ == old(self)@
                },
            },
            final(self)@ == after_handshake(old(self)@, r is Ok),
    {
        let mut reader = package.into_reader();
        let protocol_version = match reader.try_read_var_int() {
            Ok(v) => v.value,
            Err(e) => return Err(e),
        };
        let server_address = match reader.try_read_string() {
            Ok(s) => s,
            Err(e) => return Err(e),
        };
        let server_port = match reader.try_read_ushort() {
            Ok(p) => p,
            Err(e) => return Err(e),
        };
        let next_state = match reader.try_read_var_int() {
            Ok(v) => v.value,
            Err(e) => return Err(e),
        };
        self.state = ConnectionState::Handshaking;
        Ok(Handshake { protocol_version, server_address, server_port, next_state })
    }
}

} // verus!
