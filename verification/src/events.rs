//! The messages that travel between the game servers and the bots.
use vstd::prelude::*;

verus! {

/// A chat message of a game server or of a chat platform.
#[derive(Clone, Debug)]
pub struct ServerMessage {
    /// Plaintext message
    pub message: String,
    /// Address of the server
    pub service: String,
    /// Shared user id
    pub user: Option<String>,
    /// Displayed username
    pub username: Option<String>,
    /// Displayed avatar
    pub avatar_url: Option<String>,
}

} // verus!
