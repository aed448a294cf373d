//! A rendezvous and gossip switchboard for a peer-to-peer, content-addressed
//! network, written as a deterministic core: events go in, commands come out,
//! and every step of the bookkeeping in between carries a proved contract.

pub mod agent_info;
pub mod aspect_list;
pub mod assoc;
pub mod connection_state;
pub mod dht;
pub mod error;
pub mod frame;
pub mod ident;
pub mod invariants;
pub mod message_log;
pub mod model;
pub mod naive_sharding;
pub mod protocol;
pub mod quiet;
pub mod random;
pub mod space;
pub mod store;
pub mod str_set;
pub mod switchboard;
pub mod table;
pub mod validation;
pub mod websocket;
pub mod wire_message;

pub use crate::dht::DhtAlgorithm;
pub use crate::error::Sim2hError;
pub use crate::switchboard::{Sim2h, Sim2hState};
pub use crate::wire_message::{StatusData, WIRE_VERSION, WireError, WireMessage};
