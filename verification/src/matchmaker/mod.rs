//! The broker: a registry of open rooms, the fan-out of relayed payloads to
//! the members of a room, and the life cycle of one accepted connection.

pub mod dispatch;
pub mod handler;
pub mod laws;
pub mod model;
pub mod registry;
