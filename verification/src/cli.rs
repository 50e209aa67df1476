//! The command line of the program as plain values.

use vstd::prelude::*;

verus! {

/// The command line.
pub struct Cli {
    /// The file to which a trace of the run is written.
    pub trace: Option<String>,
    pub command: Option<Commands>,
}

/// What the program does when it starts.
pub enum Commands {
    /// Host a room.
    HostRoom {
        relay_address: Option<String>,
        nickname: Option<String>,
        /// The file from which the canvas is loaded.
        load_canvas: Option<String>,
    },
    /// Join a room.
    JoinRoom {
        /// The identifier of the room.
        room_id: u32,
        relay_address: Option<String>,
        nickname: Option<String>,
        /// The file to which the canvas is saved.
        save_canvas: Option<String>,
    },
}

} // verus!
