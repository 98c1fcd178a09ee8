//! The messages exchanged between the user-facing client and the
//! server core over their channel pair.
use vstd::prelude::*;

verus! {

/// What flows between client and server: a chat line as
/// `(from, message)`, or a direct message as `(from, to, message)`.
#[derive(Debug, Clone)]
pub enum ClientServerMessage {
    Say(String, String),
    Whisper(String, String, String),
}

/// What the user interface asks of the client: say a line, or whisper
/// one to a named peer.
#[derive(Debug, Clone)]
pub enum UiClientMessage {
    Say(String),
    Whisper(String, String),
}

} // verus!
