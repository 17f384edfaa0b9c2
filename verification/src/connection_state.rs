use vstd::prelude::*;

verus! {

/// Where a connection stands in the protocol.
#[derive(Debug, PartialEq, Eq, Clone, Copy, Structural)]
pub enum ConnectionState {
    Uninitialized,
    Handshaking,
    Login,
    Configuration,
    Play,
}

impl ConnectionState {
    /// The number that stands for the state: `0` to `4`, in the order above.
    pub open spec fn spec_code(self) -> u8 {
        match self {
            ConnectionState::Uninitialized => 0,
            ConnectionState::Handshaking => 1,
            ConnectionState::Login => 2,
            ConnectionState::Configuration => 3,
            ConnectionState::Play => 4,
        }
    }

    /// The number that stands for the state.
    pub fn code(self) -> (c: u8)
        ensures
            c == self.spec_code(),
    {
        match self {
            ConnectionState::Uninitialized => 0,
            ConnectionState::Handshaking => 1,
            ConnectionState::Login => 2,
            ConnectionState::Configuration => 3,
            ConnectionState::Play => 4,
        }
    }
}

/// The answer to a status request: the server's version, its players, its
/// description and its icon.
#[derive(Debug)]
pub struct StatusResponse {
    pub version: Version,
    pub players: Players,
    pub description: Description,
    pub favicon: String,
    pub enforces_secure_chat: bool,
}

/// The game version a server speaks, by name and protocol number.
#[derive(Debug)]
pub struct Version {
    pub name: String,
    pub protocol: u32,
}

/// How many players a server takes, how many are on, and some of them.
#[derive(Debug)]
pub struct Players {
    pub max: u16,
    pub online: u16,
    pub sample: Vec<Player>,
}

/// A player, by name and id.
#[derive(Debug)]
pub struct Player {
    pub name: String,
    pub id: String,
}

/// The text a server shows in the server list.
#[derive(Debug)]
pub struct Description {
    pub text: String,
}

/// A fixed status answer: version "1.20.1", protocol 767, room for one player
/// and none on, the description "RUST", no icon, secure chat not enforced.
pub fn test_response() -> (r: StatusResponse)
    ensures
        r.favicon@ == ""@,
        r.description.text@ == "RUST"@,
        !r.enforces_secure_chat,
        r.players.max == 1,
        r.players.online == 0,
        r.players.sample@.len() == 0,
        r.version.name@ == "1.20.1"@,
        r.version.protocol == 767,
{
    StatusResponse {
        favicon: "".to_owned(),
        description: Description { text: "RUST".to_owned() },
        enforces_secure_chat: false,
        players: Players { max: 1, online: 0, sample: Vec::new() },
        version: Version { name: "1.20.1".to_owned(), protocol: 767 },
    }
}

} // verus!
