//! The state of one connection: in limbo until it joins a space, then joined
//! as one agent of that space.

use vstd::prelude::*;
use crate::assoc::Key;
use crate::ident::{AgentId, SpaceHash};
use crate::wire_message::{messages_view, WireMessage, WireMessageView};

verus! {

/// The state of one connection.
#[derive(Clone, Debug, PartialEq, Eq)]
pub enum ConnectionState {
    /// The connection has not joined a space yet. The messages that arrived
    /// in the meantime wait here, in the order of their arrival.
    Limbo(Vec<WireMessage>),
    /// The connection has joined this space as this agent.
    Joined(SpaceHash, AgentId),
}

/// The model of a `ConnectionState`.
pub enum ConnectionStateView {
    Limbo(Seq<WireMessageView>),
    Joined(Key, Key),
}

impl View for ConnectionState {
    type V = ConnectionStateView;

    open spec fn view(&self) -> ConnectionStateView {
        match self {
            ConnectionState::Limbo(q) => ConnectionStateView::Limbo(messages_view(q@)),
            ConnectionState::Joined(s, a) => ConnectionStateView::Joined(s@, a@),
        }
    }
}

impl ConnectionState {
    /// The state of a connection that has just been opened: in limbo, with
    /// nothing waiting.
    pub fn new() -> (c: Self)
        ensures
            c@ == ConnectionStateView::Limbo(Seq::empty()),
    {
        let c = ConnectionState::Limbo(Vec::new());
        assert(messages_view(Seq::<WireMessage>::empty()) =~= Seq::<WireMessageView>::empty());
        c
    }

    /// The state of a connection that has joined `space` as `agent`.
    pub fn new_joined(space: SpaceHash, agent: AgentId) -> (c: Self)
        ensures
            c@ == ConnectionStateView::Joined(space@, agent@),
    {
        ConnectionState::Joined(space, agent)
    }

    /// A copy of the state.
    pub fn duplicate(&self) -> (c: Self)
        ensures
            c@ == self@,
    {
        match self {
            ConnectionState::Limbo(q) => {
                let mut copy: Vec<WireMessage> = Vec::new();
                let mut i: usize = 0;
                while i < q.len()
                    invariant
                        i <= q@.len(),
                        copy@.len() == i,
                        forall|j: int| 0 <= j < i ==> (#[trigger] copy@[j])@ == q@[j]@,
                    decreases q@.len() - i,
                {
                    copy.push(q[i].duplicate());
                    i += 1;
                }
                assert(messages_view(copy@) =~= messages_view(q@));
                ConnectionState::Limbo(copy)
            },
            ConnectionState::Joined(s, a) => ConnectionState::Joined(s.clone(), a.clone()),
        }
    }

    /// Whether the connection is still in limbo.
    pub fn in_limbo(&self) -> (b: bool)
        ensures
            b == (self@ is Limbo),
    {
        match self {
            ConnectionState::Limbo(_) => true,
            ConnectionState::Joined(_, _) => false,
        }
    }
}

} // verus!
