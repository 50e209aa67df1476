//! Packets that the peers of a room exchange. The broker relays them as
//! opaque bytes.
//!
//! Positions are fixed-point numbers with three fractional bits, brush sizes
//! are fixed-point numbers with one fractional bit.

use vstd::prelude::*;

verus! {

/// The version of the peer protocol that this library speaks.
pub const PROTOCOL_VERSION: u32 = 0x0200;

/// The position of a chunk of the canvas.
pub type ChunkPosition = (i32, i32);

/// One point of a brush stroke.
#[derive(Clone, Copy, Debug, PartialEq, Eq, Structural)]
pub struct StrokePoint {
    /// Horizontal position, with three fractional bits.
    pub x: i32,
    /// Vertical position, with three fractional bits.
    pub y: i32,
    /// The colour as `0xAARRGGBB`; zero stands for the eraser.
    pub color: u32,
    /// Width of the brush, with one fractional bit.
    pub brush_size: i16,
}

/// A packet sent from one peer to another.
#[derive(Clone, Debug, PartialEq, Eq)]
pub enum Packet {
    /// Introduction to the other peers, with the sender's nickname.
    Hello(String),
    /// Answer to an introduction, with the sender's nickname.
    HiThere(String),
    /// The sender's cursor has moved: position and brush size.
    Cursor(i32, i32, i16),
    /// A brush stroke.
    Stroke(Vec<StrokePoint>),
    /// Not in use.
    Reserved,
    /// The protocol version of the sender.
    Version(u32),
    /// The positions of the chunks that the host has.
    ChunkPositions(Vec<ChunkPosition>),
    /// Request for the chunks at the given positions.
    GetChunks(Vec<ChunkPosition>),
    /// Chunks with their encoded image data.
    Chunks(Vec<(ChunkPosition, Vec<u8>)>),
    /// A chat message.
    WHDChatMessage(String),
}

/// What a [`Packet`] holds, as mathematical values.
pub enum PacketView {
    Hello(Seq<char>),
    HiThere(Seq<char>),
    Cursor(i32, i32, i16),
    Stroke(Seq<StrokePoint>),
    Reserved,
    Version(u32),
    ChunkPositions(Seq<ChunkPosition>),
    GetChunks(Seq<ChunkPosition>),
    Chunks(Seq<(ChunkPosition, Seq<u8>)>),
    WHDChatMessage(Seq<char>),
}

/// The chunks of a packet as mathematical values.
pub open spec fn chunks_view(chunks: Seq<(ChunkPosition, Vec<u8>)>) -> Seq<
    (ChunkPosition, Seq<u8>),
> {
    chunks.map_values(|chunk: (ChunkPosition, Vec<u8>)| (chunk.0, chunk.1@))
}

impl View for Packet {
    type V = PacketView;

    open spec fn view(&self) -> PacketView {
        match *self {
            Packet::Hello(nickname) => PacketView::Hello(nickname@),
            Packet::HiThere(nickname) => PacketView::HiThere(nickname@),
            Packet::Cursor(x, y, brush_size) => PacketView::Cursor(x, y, brush_size),
            Packet::Stroke(points) => PacketView::Stroke(points@),
            Packet::Reserved => PacketView::Reserved,
            Packet::Version(version) => PacketView::Version(version),
            Packet::ChunkPositions(positions) => PacketView::ChunkPositions(positions@),
            Packet::GetChunks(positions) => PacketView::GetChunks(positions@),
            Packet::Chunks(chunks) => PacketView::Chunks(chunks_view(chunks@)),
            Packet::WHDChatMessage(message) => PacketView::WHDChatMessage(message@),
        }
    }
}

/// Whether a peer that announces `version` can take part in a session with
/// this library: its protocol must not be newer than [`PROTOCOL_VERSION`].
pub open spec fn spec_compatible_with(version: u32) -> bool {
    version <= PROTOCOL_VERSION
}

/// Whether a peer that announces `version` can take part in a session with
/// this library.
#[verifier::when_used_as_spec(spec_compatible_with)]
pub fn compatible_with(version: u32) -> (r: bool)
    ensures
        r == spec_compatible_with(version),
{
    version <= PROTOCOL_VERSION
}

} // verus!
