use crate::territories::{Territories, TerritoriesRLE};
use vstd::prelude::*;

verus! {

/// A message from the server to a client.
#[derive(Debug)]
pub enum ServerMessage {
    AuthAccepted { username: String },
    MapData(TerritoriesRLE),
    Error { message: String },
}

/// Identifier of a running game.
#[derive(PartialEq, Eq, Structural, Clone, Copy, Debug, Hash)]
pub struct GameId(pub u32);

/// A running game.
#[derive(Debug)]
pub struct Game {
    pub territories: Territories,
}

/// What request handlers share: where the client's files are.
#[derive(Debug)]
pub struct State {
    pub absolute_owned_client_path: String,
}

} // verus!
