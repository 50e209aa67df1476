//! Rendezvous and relay for collaborative painting sessions.
//!
//! The broker hands out short numeric room identifiers, lets a joining client
//! and a host learn each other's address, and relays opaque payloads between
//! the members of a room. The peer side drives the handshake between the
//! participants of a room and keeps track of which chunks of the canvas still
//! have to be fetched from the host.
//!
//! Nothing in this library touches the network. The broker and the peer are
//! state machines: they are told what was received, and answer with what is
//! to be sent.

pub mod address;
pub mod address_index;
pub mod address_map;
pub mod chunk_set;
pub mod cli;
pub mod lobby;
pub mod log;
pub mod matchmaker;
pub mod net;
pub mod protocol;
pub mod random;
pub mod seq_facts;
pub mod wallhackd;
pub mod whrc;
