//! The message log: a record of every message that the switchboard took in
//! or tried to send, pings and pongs apart.

use vstd::prelude::*;
use crate::assoc::Key;
use crate::ident::{AgentId, Lib3hUri};
use crate::wire_message::{WireMessage, WireMessageView};

verus! {

/// Which way a logged message went.
#[derive(Clone, Copy, Debug, PartialEq, Eq, Structural)]
pub enum Direction {
    /// From a client to the switchboard.
    In,
    /// From the switchboard to a client.
    Out,
}

/// One line of the message log: a message, the address that it came from or
/// was meant for, and the agent that signed it or that it was meant for.
#[derive(Clone, Debug, PartialEq, Eq)]
pub struct MessageLogEntry {
    pub direction: Direction,
    pub agent: AgentId,
    pub uri: Lib3hUri,
    pub message: WireMessage,
}

/// The model of a `MessageLogEntry`.
pub struct MessageLogEntryView {
    pub direction: Direction,
    pub agent: Key,
    pub uri: Key,
    pub message: WireMessageView,
}

impl View for MessageLogEntry {
    type V = MessageLogEntryView;

    open spec fn view(&self) -> MessageLogEntryView {
        MessageLogEntryView {
            direction: self.direction,
            agent: self.agent@,
            uri: self.uri@,
            message: self.message@,
        }
    }
}

/// The model of a message log.
pub open spec fn log_view(v: Seq<MessageLogEntry>) -> Seq<MessageLogEntryView> {
    Seq::new(v.len(), |i: int| v[i]@)
}

} // verus!
