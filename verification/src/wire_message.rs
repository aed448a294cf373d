//! The messages that travel between clients and the switchboard.

use vstd::prelude::*;
use crate::assoc::Key;
use crate::protocol::{
    ClientToLib3h, ClientToLib3hResponse, ClientToLib3hResponseView, ClientToLib3hView,
    Lib3hToClient, Lib3hToClientResponse, Lib3hToClientResponseView, Lib3hToClientView,
};

verus! {

/// The version of the wire protocol, which the answer to a status request
/// carries.
pub const WIRE_VERSION: u32 = 2;

/// What the switchboard tells of itself when asked for its status.
#[derive(Clone, Copy, Debug, PartialEq, Eq)]
pub struct StatusData {
    /// The number of spaces.
    pub spaces: usize,
    /// The number of open connections.
    pub connections: usize,
    /// The replication factor under naive sharding; 0 under full sync.
    pub redundant_count: u64,
    /// The version of the wire protocol.
    pub version: u32,
}

/// An error that is sent over the wire.
#[derive(Clone, Debug, PartialEq, Eq)]
pub enum WireError {
    /// The message arrived before the connection had joined a space; it is
    /// kept and handled after the join.
    MessageWhileInLimbo,
    /// Any other error, in words.
    Other(String),
}

/// The model of a `WireError`.
pub enum WireErrorView {
    MessageWhileInLimbo,
    Other(Key),
}

impl View for WireError {
    type V = WireErrorView;

    open spec fn view(&self) -> WireErrorView {
        match self {
            WireError::MessageWhileInLimbo => WireErrorView::MessageWhileInLimbo,
            WireError::Other(s) => WireErrorView::Other(s@),
        }
    }
}

impl WireError {
    /// A copy of the value.
    pub fn duplicate(&self) -> (r: Self)
        ensures
            r@ == self@,
    {
        match self {
            WireError::MessageWhileInLimbo => WireError::MessageWhileInLimbo,
            WireError::Other(s) => WireError::Other(s.clone()),
        }
    }
}

/// A message between a client and the switchboard.
#[derive(Clone, Debug, PartialEq, Eq)]
pub enum WireMessage {
    ClientToLib3h(ClientToLib3h),
    ClientToLib3hResponse(ClientToLib3hResponse),
    Lib3hToClient(Lib3hToClient),
    Lib3hToClientResponse(Lib3hToClientResponse),
    Ping,
    Pong,
    Status,
    StatusResponse(StatusData),
    Error(WireError),
}

/// The model of a `WireMessage`.
pub enum WireMessageView {
    ClientToLib3h(ClientToLib3hView),
    ClientToLib3hResponse(ClientToLib3hResponseView),
    Lib3hToClient(Lib3hToClientView),
    Lib3hToClientResponse(Lib3hToClientResponseView),
    Ping,
    Pong,
    Status,
    StatusResponse(StatusData),
    Error(WireErrorView),
}

impl View for WireMessage {
    type V = WireMessageView;

    open spec fn view(&self) -> WireMessageView {
        match self {
            WireMessage::ClientToLib3h(m) => WireMessageView::ClientToLib3h(m@),
            WireMessage::ClientToLib3hResponse(m) => WireMessageView::ClientToLib3hResponse(m@),
            WireMessage::Lib3hToClient(m) => WireMessageView::Lib3hToClient(m@),
            WireMessage::Lib3hToClientResponse(m) => WireMessageView::Lib3hToClientResponse(m@),
            WireMessage::Ping => WireMessageView::Ping,
            WireMessage::Pong => WireMessageView::Pong,
            WireMessage::Status => WireMessageView::Status,
            WireMessage::StatusResponse(d) => WireMessageView::StatusResponse(*d),
            WireMessage::Error(e) => WireMessageView::Error(e@),
        }
    }
}

impl WireMessage {
    /// Whether this is a message that only the switchboard may send. A
    /// client that sends one breaks the protocol.
    pub fn is_server_only(&self) -> (b: bool)
        ensures
            b == (self@ is Lib3hToClient || self@ is ClientToLib3hResponse),
    {
        match self {
            WireMessage::Lib3hToClient(_) => true,
            WireMessage::ClientToLib3hResponse(_) => true,
            _ => false,
        }
    }

    /// A copy of the message.
    pub fn duplicate(&self) -> (r: Self)
        ensures
            r@ == self@,
    {
        match self {
            WireMessage::ClientToLib3h(m) => WireMessage::ClientToLib3h(m.duplicate()),
            WireMessage::ClientToLib3hResponse(m) => WireMessage::ClientToLib3hResponse(
                m.duplicate(),
            ),
            WireMessage::Lib3hToClient(m) => WireMessage::Lib3hToClient(m.duplicate()),
            WireMessage::Lib3hToClientResponse(m) => WireMessage::Lib3hToClientResponse(
                m.duplicate(),
            ),
            WireMessage::Ping => WireMessage::Ping,
            WireMessage::Pong => WireMessage::Pong,
            WireMessage::Status => WireMessage::Status,
            WireMessage::StatusResponse(d) => WireMessage::StatusResponse(*d),
            WireMessage::Error(e) => WireMessage::Error(e.duplicate()),
        }
    }
}

/// The model of a vector of messages.
pub open spec fn messages_view(v: Seq<WireMessage>) -> Seq<WireMessageView> {
    Seq::new(v.len(), |i: int| v[i]@)
}

} // verus!
