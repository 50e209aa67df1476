//! The two wire protocols: the packets exchanged between a client and the
//! broker, and the packets that peers exchange through the broker.

pub mod client;
pub mod matchmaker;
