//! What a space records of each agent that has joined it.

use vstd::prelude::*;
use crate::assoc::Key;
use crate::ident::{Lib3hUri, Location};

verus! {

/// The connection that an agent joined from and the agent's place on the
/// ring.
#[derive(Clone, Debug)]
pub struct AgentInfo {
    pub uri: Lib3hUri,
    pub location: Location,
}

/// The model of an `AgentInfo`.
pub struct AgentInfoView {
    pub uri: Key,
    pub location: u32,
}

impl View for AgentInfo {
    type V = AgentInfoView;

    open spec fn view(&self) -> AgentInfoView {
        AgentInfoView { uri: self.uri@, location: self.location }
    }
}

impl AgentInfo {
    pub fn new(uri: Lib3hUri, location: Location) -> (info: Self)
        ensures
            info@ == (AgentInfoView { uri: uri@, location }),
    {
        AgentInfo { uri, location }
    }

    /// A copy of the record.
    pub fn duplicate(&self) -> (info: Self)
        ensures
            info@ == self@,
    {
        AgentInfo { uri: self.uri.clone(), location: self.location }
    }
}

} // verus!
