//! What passes between the switchboard and the adapter that owns the
//! sockets: events in, commands out.

use vstd::prelude::*;
use crate::assoc::Key;
use crate::ident::{AgentId, Lib3hUri};
use crate::wire_message::{WireMessage, WireMessageView};

verus! {

/// A frame that arrived on a connection, as far as the switchboard reads it.
#[derive(Clone, Debug, PartialEq, Eq)]
pub enum WsFrame {
    /// A text frame, which no client should send.
    Text(String),
    /// A binary frame whose signature verified: the agent that signed it and
    /// the message inside.
    Message(AgentId, WireMessage),
    /// A binary frame that could not be read or whose signature did not
    /// verify.
    Rejected,
    /// A ping of the transport.
    Ping,
    /// A pong of the transport.
    Pong,
    /// The peer closed the connection.
    Close,
}

/// The model of a `WsFrame`.
pub enum WsFrameView {
    Text(Key),
    Message(Key, WireMessageView),
    Rejected,
    Ping,
    Pong,
    Close,
}

impl View for WsFrame {
    type V = WsFrameView;

    open spec fn view(&self) -> WsFrameView {
        match self {
            WsFrame::Text(s) => WsFrameView::Text(s@),
            WsFrame::Message(a, m) => WsFrameView::Message(a@, m@),
            WsFrame::Rejected => WsFrameView::Rejected,
            WsFrame::Ping => WsFrameView::Ping,
            WsFrame::Pong => WsFrameView::Pong,
            WsFrame::Close => WsFrameView::Close,
        }
    }
}

/// What the adapter tells the switchboard.
#[derive(Clone, Debug, PartialEq, Eq)]
pub enum WssEvent {
    /// A connection was opened from this address.
    IncomingConnection(Lib3hUri),
    /// A frame arrived from this address.
    ReceivedData(Lib3hUri, WsFrame),
    /// The transport failed on the connection from this address; the words
    /// say how.
    Error(Lib3hUri, String),
}

/// The model of a `WssEvent`.
pub enum WssEventView {
    IncomingConnection(Key),
    ReceivedData(Key, WsFrameView),
    Error(Key, Key),
}

impl View for WssEvent {
    type V = WssEventView;

    open spec fn view(&self) -> WssEventView {
        match self {
            WssEvent::IncomingConnection(u) => WssEventView::IncomingConnection(u@),
            WssEvent::ReceivedData(u, f) => WssEventView::ReceivedData(u@, f@),
            WssEvent::Error(u, e) => WssEventView::Error(u@, e@),
        }
    }
}

/// What the switchboard tells the adapter.
#[derive(Clone, Debug, PartialEq, Eq)]
pub enum WssCommand {
    /// Close the connection to this address.
    CloseConnection(Lib3hUri),
    /// Send this message to this address.
    SendMessage(Lib3hUri, WireMessage),
}

/// The model of a `WssCommand`.
pub enum WssCommandView {
    CloseConnection(Key),
    SendMessage(Key, WireMessageView),
}

impl View for WssCommand {
    type V = WssCommandView;

    open spec fn view(&self) -> WssCommandView {
        match self {
            WssCommand::CloseConnection(u) => WssCommandView::CloseConnection(u@),
            WssCommand::SendMessage(u, m) => WssCommandView::SendMessage(u@, m@),
        }
    }
}

/// The model of a vector of events.
pub open spec fn events_view(v: Seq<WssEvent>) -> Seq<WssEventView> {
    Seq::new(v.len(), |i: int| v[i]@)
}

/// The model of a vector of commands.
pub open spec fn commands_view(v: Seq<WssCommand>) -> Seq<WssCommandView> {
    Seq::new(v.len(), |i: int| v[i]@)
}

} // verus!
