//! The errors that the switchboard reports.

use vstd::prelude::*;

verus! {

/// Why a message or an operation was turned down. None of these ends the
/// event loop: the error is reported and the next event is taken up.
#[derive(Clone, Copy, Debug, PartialEq, Eq, Structural)]
pub enum Sim2hError {
    /// The signer of a message is not the agent that the message names, or
    /// not the agent that the connection is joined as.
    SignerMismatch,
    /// The space or agent inside a message is not the one that the connection
    /// is joined as.
    SpaceMismatch,
    /// The signature of a frame does not verify, or the frame cannot be read.
    VerifyFailed,
    /// A message arrived from an address that has no connection.
    NoConnection,
    /// A join was asked for at an address that is not in limbo.
    NotInLimbo,
    /// A leave was asked for at an address that is not joined.
    NotJoined,
    /// The agent that a message is meant for is not in the space.
    UnvalidatedProxyAgent,
    /// A join message reached a connection that has joined already.
    JoinNotProxied,
    /// A query arrived while every agent holds everything.
    QueryInFullSync,
    /// The message is of a kind that the switchboard does not handle.
    NotImplemented,
    /// The address is already that of another agent of the space.
    UriClaimed,
    /// A message was meant for an address that is not open, and was dropped.
    NoRoute,
    /// A client sent, over a joined connection, a message that only the
    /// switchboard may send. This breaks the protocol; the host is to stop.
    WrongDirection,
}

impl Sim2hError {
    /// The error in words.
    pub open spec fn words(self) -> Seq<char> {
        match self {
            Sim2hError::SignerMismatch => "Signer does not match agent"@,
            Sim2hError::SpaceMismatch => "Space or agent does not match the joined connection"@,
            Sim2hError::VerifyFailed => "Message signature failed verification"@,
            Sim2hError::NoConnection => "no connection for this address"@,
            Sim2hError::NotInLimbo => "no agent found in limbo at this address"@,
            Sim2hError::NotJoined => "no joined agent found at this address"@,
            Sim2hError::UnvalidatedProxyAgent => "unvalidated proxy agent"@,
            Sim2hError::JoinNotProxied =>
                "join message should have been processed elsewhere and can't be proxied"@,
            Sim2hError::QueryInFullSync => "Got ClientToLib3h::QueryEntry in full-sync mode"@,
            Sim2hError::NotImplemented => "Message not implemented"@,
            Sim2hError::UriClaimed => "address is already claimed by another agent of the space"@,
            Sim2hError::NoRoute => "FAILED TO SEND, NO ROUTE"@,
            Sim2hError::WrongDirection =>
                "Clients should never send a message that only servers can send"@,
        }
    }

    /// The error in words, for a log.
    pub fn describe(&self) -> (text: String)
        ensures
            text@ == self.words(),
    {
        match self {
            Sim2hError::SignerMismatch => "Signer does not match agent".to_owned(),
            Sim2hError::SpaceMismatch =>
                "Space or agent does not match the joined connection".to_owned(),
            Sim2hError::VerifyFailed => "Message signature failed verification".to_owned(),
            Sim2hError::NoConnection => "no connection for this address".to_owned(),
            Sim2hError::NotInLimbo => "no agent found in limbo at this address".to_owned(),
            Sim2hError::NotJoined => "no joined agent found at this address".to_owned(),
            Sim2hError::UnvalidatedProxyAgent => "unvalidated proxy agent".to_owned(),
            Sim2hError::JoinNotProxied =>
                "join message should have been processed elsewhere and can't be proxied".to_owned(),
            Sim2hError::QueryInFullSync =>
                "Got ClientToLib3h::QueryEntry in full-sync mode".to_owned(),
            Sim2hError::NotImplemented => "Message not implemented".to_owned(),
            Sim2hError::UriClaimed =>
                "address is already claimed by another agent of the space".to_owned(),
            Sim2hError::NoRoute => "FAILED TO SEND, NO ROUTE".to_owned(),
            Sim2hError::WrongDirection =>
                "Clients should never send a message that only servers can send".to_owned(),
        }
    }
}

} // verus!
