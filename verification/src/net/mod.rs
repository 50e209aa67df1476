//! The peer side of a session: the handshake with the broker and with the
//! other participants of a room, and the synchronisation of the canvas.

pub mod peer;
pub mod session;
pub mod updates;
