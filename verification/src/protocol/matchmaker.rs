//! Packets exchanged between a client and the broker.

use crate::address::Address;
use vstd::prelude::*;
use vstd::string::StringExecFns;

verus! {

/// The port on which the broker listens unless it is told otherwise.
pub const DEFAULT_PORT: u16 = 62137;

/// A packet exchanged between a client and the broker.
#[derive(Clone, Debug, PartialEq, Eq)]
pub enum Packet {
    /// Request from a host for a fresh room identifier.
    Host,
    /// Response to the host with the identifier of its room.
    RoomId(u32),
    /// Request from a client to join the room with the given identifier.
    GetHost(u32),
    /// Response to a joining client with the address of the host.
    HostAddress(Address),
    /// Notification to the host with the address of a joining client.
    ClientAddress(Address),
    /// Request to be served as a relay client, in the room of the host with
    /// the given address, or in the requester's own room.
    RequestRelay(Option<Address>),
    /// Payload to be relayed, to the member with the given address or to all
    /// other members of the room.
    Relay(Option<Address>, Vec<u8>),
    /// Relayed payload with the address of its sender.
    Relayed(Address, Vec<u8>),
    /// Notification that the relay client with the given address has left.
    Disconnected(Address),
    /// Notification of a failure that leaves the connection open.
    Error(String),
    /// Request from a host for a room with the given identifier.
    WallhackDHostWithCustomRoomId(u32),
}

/// What a [`Packet`] holds, as mathematical values.
pub enum PacketView {
    Host,
    RoomId(u32),
    GetHost(u32),
    HostAddress(Address),
    ClientAddress(Address),
    RequestRelay(Option<Address>),
    Relay(Option<Address>, Seq<u8>),
    Relayed(Address, Seq<u8>),
    Disconnected(Address),
    Error(Seq<char>),
    WallhackDHostWithCustomRoomId(u32),
}

impl View for Packet {
    type V = PacketView;

    open spec fn view(&self) -> PacketView {
        match *self {
            Packet::Host => PacketView::Host,
            Packet::RoomId(id) => PacketView::RoomId(id),
            Packet::GetHost(id) => PacketView::GetHost(id),
            Packet::HostAddress(addr) => PacketView::HostAddress(addr),
            Packet::ClientAddress(addr) => PacketView::ClientAddress(addr),
            Packet::RequestRelay(host) => PacketView::RequestRelay(host),
            Packet::Relay(to, data) => PacketView::Relay(to, data@),
            Packet::Relayed(from, data) => PacketView::Relayed(from, data@),
            Packet::Disconnected(addr) => PacketView::Disconnected(addr),
            Packet::Error(message) => PacketView::Error(message@),
            Packet::WallhackDHostWithCustomRoomId(id) => PacketView::WallhackDHostWithCustomRoomId(
                id,
            ),
        }
    }
}

/// Whether a client may send the packet to the broker. The other packets are
/// the broker's answers and notifications.
pub open spec fn is_request(packet: PacketView) -> bool {
    packet is Host || packet is WallhackDHostWithCustomRoomId || packet is GetHost
        || packet is RequestRelay || packet is Relay
}

/// The error packet with the given message.
pub fn error_packet(message: &str) -> (packet: Packet)
    ensures
        packet@ == PacketView::Error(message@),
{
    Packet::Error(String::from_str(message))
}

} // verus!
