//! Hosting a room under an identifier of the host's choice.

use crate::lobby::{host_room, start_fault, starts, text_of, whd_host_room_with_custom_id, Status};
use crate::lobby::first_packet;
use crate::net::peer::{Peer, PeerView};
use crate::protocol::matchmaker::Packet;
use vstd::prelude::*;

verus! {

/// What the lobby hands on when a room is to be hosted.
pub struct WHRCAppLobbyHostRoomArgs {
    /// The text of the room identifier that the host asks for, if it asks
    /// for one.
    pub custom_room_id: Option<String>,
}

/// A peer that can host a room under an identifier of its choice.
pub trait WHRCPeerFuncs: Sized {
    /// Creates a peer that hosts a new room under the identifier that `args`
    /// asks for, with the request that it sends to the broker first. The
    /// identifier and the nickname must have been checked.
    fn whrc_custom_id_host(nickname: &str, args: WHRCAppLobbyHostRoomArgs) -> (r: (Self, Packet))
        requires
            args.custom_room_id is Some,
            start_fault(nickname@, text_of(args.custom_room_id)) is None,
        ensures
            r.1@ == first_packet(text_of(args.custom_room_id), true),
    ;
}

impl WHRCPeerFuncs for Peer {
    fn whrc_custom_id_host(nickname: &str, args: WHRCAppLobbyHostRoomArgs) -> (r: (Peer, Packet))
        ensures
            r.0.wf(),
            r.0@ == PeerView::fresh(nickname@, true),
    {
        match host_room_with(nickname, args) {
            Ok(start) => start,
            Err(_) => {
                // Not reached: nothing is at fault with the arguments.
                assert(false);
                Peer::host(nickname)
            },
        }
    }
}

/// Creates a peer that hosts a new room, under the identifier that `args`
/// asks for if it asks for one, with the request that it sends to the broker
/// first. The nickname and the identifier are checked before.
pub fn host_room_with(nickname: &str, args: WHRCAppLobbyHostRoomArgs) -> (r: Result<
    (Peer, Packet),
    Status,
>)
    ensures
        starts(r, nickname@, text_of(args.custom_room_id), true),
{
    match &args.custom_room_id {
        Some(room_id) => whd_host_room_with_custom_id(nickname, room_id.as_str()),
        None => host_room(nickname),
    }
}

} // verus!
