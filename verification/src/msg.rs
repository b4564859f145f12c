//! Protocol value types: what a client may send, what a server may send, and
//! the per-connection session states. Contracts elsewhere speak of these values
//! through the ghost views `ClientMsgV` / `ServerMsgV`, whose payloads are
//! character sequences.

use vstd::prelude::*;

verus! {

/// One protocol value sent from client to server.
#[derive(Debug, PartialEq, Eq)]
pub enum FromClient {
    Join { username: String },
    Send { message: String },
    Leave,
}

/// One protocol value sent from server to client.
#[derive(Debug, PartialEq, Eq)]
pub enum FromServer {
    JoinSuccess,
    Message { message: String },
    Error(String),
}

/// The session states of one connection's state machine.
#[derive(Debug, PartialEq, Eq, Structural, Clone, Copy)]
pub enum ChatState {
    Waiting,
    Joined,
    Leaving,
}

/// Mathematical view of a `FromClient` value.
pub enum ClientMsgV {
    Join { username: Seq<char> },
    Send { message: Seq<char> },
    Leave,
}

/// Mathematical view of a `FromServer` value.
pub enum ServerMsgV {
    JoinSuccess,
    Message { message: Seq<char> },
    Error { reason: Seq<char> },
}

impl View for FromClient {
    type V = ClientMsgV;

    open spec fn view(&self) -> ClientMsgV {
        match self {
            FromClient::Join { username } => ClientMsgV::Join { username: username@ },
            FromClient::Send { message } => ClientMsgV::Send { message: message@ },
            FromClient::Leave => ClientMsgV::Leave,
        }
    }
}

impl View for FromServer {
    type V = ServerMsgV;

    open spec fn view(&self) -> ServerMsgV {
        match self {
            FromServer::JoinSuccess => ServerMsgV::JoinSuccess,
            FromServer::Message { message } => ServerMsgV::Message { message: message@ },
            FromServer::Error(reason) => ServerMsgV::Error { reason: reason@ },
        }
    }
}

} // verus!
