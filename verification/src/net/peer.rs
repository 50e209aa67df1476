//! A participant of a room.
//!
//! A peer reacts to the packets that the broker sends it and to the payloads
//! that the other participants relay to it. Every reaction is a change of its
//! own state, at most one message for the application, and a list of packets
//! to send. Sending and receiving is left to the caller.

use crate::address::Address;
use crate::address_map::{position_of, AddressMap};
use crate::seq_facts::lemma_filter_step;
use crate::protocol::client as cl;
use crate::protocol::client::ChunkPosition;
use crate::protocol::matchmaker as mm;
use vstd::prelude::*;
use vstd::string::StringExecFns;

verus! {

/// A position on the canvas, both coordinates with three fractional bits.
#[derive(Clone, Copy, Debug, PartialEq, Eq, Structural)]
pub struct Point {
    pub x: i32,
    pub y: i32,
}

/// What a stroke does to the canvas. Widths have one fractional bit.
#[derive(Clone, Copy, Debug, PartialEq, Eq, Structural)]
pub enum Brush {
    /// Paints with the colour `0xAARRGGBB`.
    Draw { color: u32, stroke_width: i16 },
    /// Erases.
    Erase { stroke_width: i16 },
}

/// One point of a brush stroke as the canvas takes it.
#[derive(Clone, Copy, Debug, PartialEq, Eq, Structural)]
pub struct StrokePoint {
    pub point: Point,
    pub brush: Brush,
}

/// The brush width of a participant that has not moved its cursor yet: four
/// units, with one fractional bit.
pub const DEFAULT_BRUSH_SIZE: i16 = 8;

/// The point of a stroke as the canvas takes it: the colour zero stands for
/// the eraser.
pub open spec fn spec_from_wire(p: cl::StrokePoint) -> StrokePoint {
    StrokePoint {
        point: Point { x: p.x, y: p.y },
        brush: if p.color == 0 {
            Brush::Erase { stroke_width: p.brush_size }
        } else {
            Brush::Draw { color: p.color, stroke_width: p.brush_size }
        },
    }
}

/// The point of a stroke as it is sent: the eraser is sent as the colour
/// zero.
pub open spec fn spec_to_wire(p: StrokePoint) -> cl::StrokePoint {
    match p.brush {
        Brush::Draw { color, stroke_width } => cl::StrokePoint {
            x: p.point.x,
            y: p.point.y,
            color,
            brush_size: stroke_width,
        },
        Brush::Erase { stroke_width } => cl::StrokePoint {
            x: p.point.x,
            y: p.point.y,
            color: 0,
            brush_size: stroke_width,
        },
    }
}

/// The point of a stroke as the canvas takes it.
#[verifier::when_used_as_spec(spec_from_wire)]
pub fn from_wire(p: cl::StrokePoint) -> (r: StrokePoint)
    ensures
        r == spec_from_wire(p),
{
    StrokePoint {
        point: Point { x: p.x, y: p.y },
        brush: if p.color == 0 {
            Brush::Erase { stroke_width: p.brush_size }
        } else {
            Brush::Draw { color: p.color, stroke_width: p.brush_size }
        },
    }
}

/// The point of a stroke as it is sent.
#[verifier::when_used_as_spec(spec_to_wire)]
pub fn to_wire(p: StrokePoint) -> (r: cl::StrokePoint)
    ensures
        r == spec_to_wire(p),
{
    match p.brush {
        Brush::Draw { color, stroke_width } => cl::StrokePoint {
            x: p.point.x,
            y: p.point.y,
            color,
            brush_size: stroke_width,
        },
        Brush::Erase { stroke_width } => cl::StrokePoint {
            x: p.point.x,
            y: p.point.y,
            color: 0,
            brush_size: stroke_width,
        },
    }
}

/// The colour `0xAARRGGBB` of the four channels.
pub open spec fn spec_pack_argb(a: u8, r: u8, g: u8, b: u8) -> u32 {
    (a as u32) << 24 | (r as u32) << 16 | (g as u32) << 8 | (b as u32)
}

/// The colour `0xAARRGGBB` of the four channels.
#[verifier::when_used_as_spec(spec_pack_argb)]
pub fn pack_argb(a: u8, r: u8, g: u8, b: u8) -> (color: u32)
    ensures
        color == spec_pack_argb(a, r, g, b),
        color == a as int * 0x100_0000 + r as int * 0x1_0000 + g as int * 0x100 + b as int,
{
    let color = (a as u32) << 24 | (r as u32) << 16 | (g as u32) << 8 | (b as u32);
    assert(((a as u32) << 24 | (r as u32) << 16 | (g as u32) << 8 | (b as u32)) == (a as u32)
        * 0x100_0000 + (r as u32) * 0x1_0000 + (g as u32) * 0x100 + (b as u32)) by (bit_vector)
        requires
            a < 256 && r < 256 && g < 256 && b < 256,
    ;
    color
}

/// A message from the peer to the application.
#[derive(Clone, Debug, PartialEq, Eq)]
pub enum Message {
    /// The session has failed; the text says why.
    Error(String),
    /// The connection to the room is established.
    Connected,
    /// A participant with the given nickname has joined. The address is
    /// given where this peer is the host, which then owes the participant
    /// the positions of its chunks.
    Joined(String, Option<Address>),
    /// The participant with the given nickname has left.
    Left(String),
    /// A participant has drawn a stroke.
    Stroke(Vec<StrokePoint>),
    /// The host has sent the positions of its chunks.
    ChunkPositions(Vec<ChunkPosition>),
    /// The participant with the given address asks for chunks.
    GetChunks(Address, Vec<ChunkPosition>),
    /// Chunks have arrived.
    Chunks(Vec<(ChunkPosition, Vec<u8>)>),
    /// A chat message has arrived.
    WHDChatMessage(String),
}

/// A [`Message`] as a mathematical value.
pub enum MessageView {
    Error(Seq<char>),
    Connected,
    Joined(Seq<char>, Option<Address>),
    Left(Seq<char>),
    Stroke(Seq<StrokePoint>),
    ChunkPositions(Seq<ChunkPosition>),
    GetChunks(Address, Seq<ChunkPosition>),
    Chunks(Seq<(ChunkPosition, Seq<u8>)>),
    WHDChatMessage(Seq<char>),
}

impl View for Message {
    type V = MessageView;

    open spec fn view(&self) -> MessageView {
        match *self {
            Message::Error(text) => MessageView::Error(text@),
            Message::Connected => MessageView::Connected,
            Message::Joined(nickname, addr) => MessageView::Joined(nickname@, addr),
            Message::Left(nickname) => MessageView::Left(nickname@),
            Message::Stroke(points) => MessageView::Stroke(points@),
            Message::ChunkPositions(positions) => MessageView::ChunkPositions(positions@),
            Message::GetChunks(addr, positions) => MessageView::GetChunks(addr, positions@),
            Message::Chunks(chunks) => MessageView::Chunks(cl::chunks_view(chunks@)),
            Message::WHDChatMessage(text) => MessageView::WHDChatMessage(text@),
        }
    }
}

/// A packet that the peer wants sent to the broker.
#[derive(Clone, Debug, PartialEq, Eq)]
pub enum Outbound {
    /// A packet for the broker itself.
    Matchmaker(mm::Packet),
    /// A packet for the participant with the given address, or for all
    /// participants. It is sent to the broker as the payload of a relay
    /// packet.
    Relay(Option<Address>, cl::Packet),
}

/// An [`Outbound`] as a mathematical value.
pub enum OutboundView {
    Matchmaker(mm::PacketView),
    Relay(Option<Address>, cl::PacketView),
}

impl View for Outbound {
    type V = OutboundView;

    open spec fn view(&self) -> OutboundView {
        match *self {
            Outbound::Matchmaker(packet) => OutboundView::Matchmaker(packet@),
            Outbound::Relay(to, packet) => OutboundView::Relay(to, packet@),
        }
    }
}

/// A list of outbound packets as mathematical values.
pub open spec fn outbound_views(out: Seq<Outbound>) -> Seq<OutboundView> {
    out.map_values(|o: Outbound| o@)
}

/// What a peer does in answer to one packet: at most one message for the
/// application, and packets to send, in this order.
pub struct Reaction {
    pub message: Option<Message>,
    pub outbound: Vec<Outbound>,
}

/// A [`Reaction`] as a mathematical value.
pub struct ReactionView {
    pub message: Option<MessageView>,
    pub outbound: Seq<OutboundView>,
}

impl View for Reaction {
    type V = ReactionView;

    open spec fn view(&self) -> ReactionView {
        ReactionView {
            message: match self.message {
                Some(message) => Some(message@),
                None => None,
            },
            outbound: outbound_views(self.outbound@),
        }
    }
}

/// Another participant of the room.
#[derive(Clone, Debug, PartialEq, Eq)]
pub struct Mate {
    /// Where its cursor is.
    pub cursor: Point,
    /// Where its cursor was before.
    pub cursor_prev: Point,
    /// When its cursor was last heard of, in milliseconds of the caller's
    /// clock.
    pub last_cursor: u64,
    pub nickname: String,
    /// The width of its brush, with one fractional bit.
    pub brush_size: i16,
}

/// A [`Mate`] as a mathematical value.
pub struct MateView {
    pub cursor: Point,
    pub cursor_prev: Point,
    pub last_cursor: u64,
    pub nickname: Seq<char>,
    pub brush_size: i16,
}

impl View for Mate {
    type V = MateView;

    open spec fn view(&self) -> MateView {
        MateView {
            cursor: self.cursor,
            cursor_prev: self.cursor_prev,
            last_cursor: self.last_cursor,
            nickname: self.nickname@,
            brush_size: self.brush_size,
        }
    }
}

/// The mate that a participant is registered as when it is first heard of.
pub open spec fn new_mate(nickname: Seq<char>, now: u64) -> MateView {
    MateView {
        cursor: Point { x: 0, y: 0 },
        cursor_prev: Point { x: 0, y: 0 },
        last_cursor: now,
        nickname,
        brush_size: DEFAULT_BRUSH_SIZE,
    }
}

/// The mates of a map as mathematical values.
pub open spec fn mates_view(mates: Map<Address, Mate>) -> Map<Address, MateView> {
    Map::new(|addr: Address| mates.contains_key(addr), |addr: Address| mates[addr]@)
}

/// A peer as a mathematical value.
#[verifier::ext_equal]
pub struct PeerView {
    /// Whether the peer has opened the room.
    pub is_host: bool,
    /// Whether the peer reaches the others through the broker.
    pub is_relayed: bool,
    pub nickname: Seq<char>,
    /// The identifier of the room, once the broker has told it.
    pub room_id: Option<u32>,
    /// The other participants by their address.
    pub mates: Map<Address, MateView>,
    /// The address of the host, once the broker has told it.
    pub host: Option<Address>,
}

/// The text that precedes every nickname.
pub open spec fn nickname_tag() -> Seq<char> {
    "[tWHD!] "@
}

/// The text by which a nickname shows that its owner takes chat messages.
pub open spec fn chat_tag() -> Seq<char> {
    "[tWHD!"@
}

/// The message for a participant whose protocol is not compatible.
pub open spec fn too_old() -> Seq<char> {
    "Client is too old."@
}

/// The packet `packet` for the participant `to`, or for all participants.
pub open spec fn relay(to: Option<Address>, packet: cl::PacketView) -> OutboundView {
    OutboundView::Relay(to, packet)
}

impl PeerView {
    /// The peer right after it was created.
    pub open spec fn fresh(nickname: Seq<char>, is_host: bool) -> PeerView {
        PeerView {
            is_host,
            is_relayed: false,
            nickname: nickname_tag() + nickname,
            room_id: None,
            mates: Map::empty(),
            host: None,
        }
    }

    /// The introduction that the peer sends to the participant at `to`, or
    /// to all participants.
    pub open spec fn hello(self, to: Option<Address>) -> OutboundView {
        relay(to, cl::PacketView::Hello(self.nickname))
    }

    /// The participant at `addr` is registered under `nickname`.
    pub open spec fn add_mate(self, addr: Address, nickname: Seq<char>, now: u64) -> PeerView {
        PeerView { mates: self.mates.insert(addr, new_mate(nickname, now)), ..self }
    }

    /// The cursor of the participant at `addr` moves to `to`, coming from
    /// `from`. Nothing happens if the participant is not registered.
    pub open spec fn move_cursor(self, addr: Address, from: Point, to: Point, now: u64)
        -> PeerView {
        if self.mates.contains_key(addr) {
            PeerView {
                mates: self.mates.insert(
                    addr,
                    MateView {
                        cursor_prev: from,
                        cursor: to,
                        last_cursor: now,
                        ..self.mates[addr]
                    },
                ),
                ..self
            }
        } else {
            self
        }
    }

    /// The peer after the payload `packet` of the participant at `sender`.
    ///
    /// - An introduction registers the sender. A cursor packet moves the
    ///   sender's cursor from where it was and sets its brush size; a stroke
    ///   moves it from the first point of the stroke to the last.
    /// - Everything else leaves the peer as it is.
    pub open spec fn after_payload(self, sender: Address, packet: cl::PacketView, now: u64)
        -> PeerView {
        match packet {
            cl::PacketView::Hello(nickname) => self.add_mate(sender, nickname, now),
            cl::PacketView::HiThere(nickname) => self.add_mate(sender, nickname, now),
            cl::PacketView::Cursor(x, y, brush_size) => if self.mates.contains_key(sender) {
                PeerView {
                    mates: self.mates.insert(
                        sender,
                        MateView {
                            cursor_prev: self.mates[sender].cursor,
                            cursor: Point { x, y },
                            last_cursor: now,
                            brush_size,
                            ..self.mates[sender]
                        },
                    ),
                    ..self
                }
            } else {
                self
            },
            cl::PacketView::Stroke(points) => if points.len() > 0 {
                self.move_cursor(
                    sender,
                    spec_from_wire(points[0]).point,
                    spec_from_wire(points.last()).point,
                    now,
                )
            } else {
                self
            },
            _ => self,
        }
    }

    /// What the peer does in answer to the payload `packet` of the
    /// participant at `sender`.
    ///
    /// - An introduction is answered with the peer's own nickname and
    ///   protocol version, and reported as a participant that has joined;
    ///   the host adds the address to the report.
    /// - A stroke, the positions of the host's chunks, a request for chunks,
    ///   chunks and a chat message are handed to the application.
    /// - A protocol version that is not compatible is reported as an error.
    /// - Everything else goes unanswered.
    pub open spec fn payload_reaction(self, sender: Address, packet: cl::PacketView)
        -> ReactionView {
        let silent = ReactionView { message: None, outbound: Seq::empty() };
        match packet {
            cl::PacketView::Hello(nickname) => ReactionView {
                message: Some(
                    MessageView::Joined(nickname, if self.is_host { Some(sender) } else { None }),
                ),
                outbound: seq![
                    relay(Some(sender), cl::PacketView::HiThere(self.nickname)),
                    relay(Some(sender), cl::PacketView::Version(cl::PROTOCOL_VERSION)),
                ],
            },
            cl::PacketView::Stroke(points) => ReactionView {
                message: Some(
                    MessageView::Stroke(points.map_values(|p: cl::StrokePoint| spec_from_wire(p))),
                ),
                ..silent
            },
            cl::PacketView::Version(version) => if cl::spec_compatible_with(version) {
                silent
            } else {
                ReactionView { message: Some(MessageView::Error(too_old())), ..silent }
            },
            cl::PacketView::ChunkPositions(positions) => ReactionView {
                message: Some(MessageView::ChunkPositions(positions)),
                ..silent
            },
            cl::PacketView::GetChunks(positions) => ReactionView {
                message: Some(MessageView::GetChunks(sender, positions)),
                ..silent
            },
            cl::PacketView::Chunks(chunks) => ReactionView {
                message: Some(MessageView::Chunks(chunks)),
                ..silent
            },
            cl::PacketView::WHDChatMessage(text) => ReactionView {
                message: Some(MessageView::WHDChatMessage(text)),
                ..silent
            },
            _ => silent,
        }
    }

    /// The peer after the packet `packet` of the broker, where `decoded` is
    /// what the payload of a relayed packet decodes to, if it decodes.
    ///
    /// - The identifier of the room and the address of the host are noted;
    ///   with the latter the peer goes over to relayed operation.
    /// - A relayed packet with a payload that decodes changes the peer as
    ///   the payload says.
    /// - A participant that has left is forgotten.
    pub open spec fn after_packet(
        self,
        packet: mm::PacketView,
        decoded: Option<cl::PacketView>,
        now: u64,
    ) -> PeerView {
        match packet {
            mm::PacketView::RoomId(id) => PeerView { room_id: Some(id), ..self },
            mm::PacketView::HostAddress(addr) => PeerView {
                host: Some(addr),
                is_relayed: true,
                ..self
            },
            mm::PacketView::Relayed(from, payload) => match decoded {
                Some(inner) if payload.len() > 0 => self.after_payload(from, inner, now),
                _ => self,
            },
            mm::PacketView::Disconnected(addr) => PeerView {
                mates: self.mates.remove(addr),
                ..self
            },
            _ => self,
        }
    }

    /// What the peer does in answer to the packet `packet` of the broker,
    /// where `decoded` is what the payload of a relayed packet decodes to,
    /// if it decodes.
    ///
    /// - Told the identifier of its room, the host asks to be relayed in its
    ///   own room, introduces itself to all participants, and reports the
    ///   connection.
    /// - Told the address of the host, a client asks to be relayed in the
    ///   room of that host, introduces itself to the host, and reports the
    ///   connection.
    /// - A relayed packet without payload says that the relay is ready: the
    ///   peer introduces itself to all participants. With a payload that
    ///   decodes, the peer reacts to the payload; a payload that does not
    ///   decode is dropped.
    /// - A participant that has left is reported, if it was registered.
    /// - An error of the broker is handed to the application.
    pub open spec fn packet_reaction(self, packet: mm::PacketView, decoded: Option<cl::PacketView>)
        -> ReactionView {
        let silent = ReactionView { message: None, outbound: Seq::empty() };
        match packet {
            mm::PacketView::RoomId(_) => ReactionView {
                message: Some(MessageView::Connected),
                outbound: seq![
                    OutboundView::Matchmaker(mm::PacketView::RequestRelay(None)),
                    self.hello(None),
                ],
            },
            mm::PacketView::HostAddress(addr) => ReactionView {
                message: Some(MessageView::Connected),
                outbound: seq![
                    OutboundView::Matchmaker(mm::PacketView::RequestRelay(Some(addr))),
                    self.hello(Some(addr)),
                ],
            },
            mm::PacketView::Relayed(from, payload) => if payload.len() == 0 {
                ReactionView { message: None, outbound: seq![self.hello(None)] }
            } else {
                match decoded {
                    Some(inner) => self.payload_reaction(from, inner),
                    None => silent,
                }
            },
            mm::PacketView::Disconnected(addr) => if self.mates.contains_key(addr) {
                ReactionView {
                    message: Some(MessageView::Left(self.mates[addr].nickname)),
                    ..silent
                }
            } else {
                silent
            },
            mm::PacketView::Error(text) => ReactionView {
                message: Some(MessageView::Error(text)),
                ..silent
            },
            _ => silent,
        }
    }
}

/// The test that an address passes if the mate registered under it takes
/// chat messages: its nickname begins with the chat tag.
pub open spec fn takes_chat(mates: Map<Address, MateView>) -> spec_fn(Address) -> bool {
    |addr: Address| chat_tag().is_prefix_of(mates[addr].nickname)
}

/// The chat message `text` for each of the addresses `to`.
pub open spec fn chat_to(to: Seq<Address>, text: Seq<char>) -> Seq<OutboundView> {
    to.map_values(|addr: Address| relay(Some(addr), cl::PacketView::WHDChatMessage(text)))
}

/// What was received in one tick, as mathematical values.
pub open spec fn received_view(received: Seq<(mm::Packet, Option<cl::Packet>)>) -> Seq<
    (mm::PacketView, Option<cl::PacketView>),
> {
    received.map_values(|r: (mm::Packet, Option<cl::Packet>)| (r.0@, decoded_view(r.1)))
}

/// The messages of one tick, and the packets to send, each in the order in
/// which they arose.
pub struct Messages {
    pub messages: Vec<Message>,
    pub outbound: Vec<Outbound>,
}

/// [`Messages`] as a mathematical value.
pub struct MessagesView {
    pub messages: Seq<MessageView>,
    pub outbound: Seq<OutboundView>,
}

impl View for Messages {
    type V = MessagesView;

    open spec fn view(&self) -> MessagesView {
        MessagesView {
            messages: self.messages@.map_values(|m: Message| m@),
            outbound: outbound_views(self.outbound@),
        }
    }
}

impl PeerView {
    /// The peer after the packets `received`, taken in their order.
    pub open spec fn after_all(
        self,
        received: Seq<(mm::PacketView, Option<cl::PacketView>)>,
        now: u64,
    ) -> PeerView
        decreases received.len(),
    {
        if received.len() == 0 {
            self
        } else {
            self.after_all(received.drop_last(), now).after_packet(
                received.last().0,
                received.last().1,
                now,
            )
        }
    }

    /// What the peer does in answer to the packets `received`, taken in
    /// their order: the messages and the packets to send of each reaction,
    /// one after the other.
    pub open spec fn all_reactions(
        self,
        received: Seq<(mm::PacketView, Option<cl::PacketView>)>,
        now: u64,
    ) -> MessagesView
        decreases received.len(),
    {
        if received.len() == 0 {
            MessagesView { messages: Seq::empty(), outbound: Seq::empty() }
        } else {
            let before = self.all_reactions(received.drop_last(), now);
            let last = self.after_all(received.drop_last(), now).packet_reaction(
                received.last().0,
                received.last().1,
            );
            MessagesView {
                messages: match last.message {
                    Some(message) => before.messages.push(message),
                    None => before.messages,
                },
                outbound: before.outbound + last.outbound,
            }
        }
    }
}

/// A connection to a room.
pub struct Peer {
    is_host: bool,
    is_relayed: bool,
    nickname: String,
    room_id: Option<u32>,
    mates: AddressMap<Mate>,
    host: Option<Address>,
}

impl View for Peer {
    type V = PeerView;

    closed spec fn view(&self) -> PeerView {
        PeerView {
            is_host: self.is_host,
            is_relayed: self.is_relayed,
            nickname: self.nickname@,
            room_id: self.room_id,
            mates: mates_view(self.mates@),
            host: self.host,
        }
    }
}

/// The points of a stroke as the canvas takes them.
fn stroke_from_wire(points: &Vec<cl::StrokePoint>) -> (r: Vec<StrokePoint>)
    ensures
        r@ == points@.map_values(|p: cl::StrokePoint| spec_from_wire(p)),
{
    let mut r: Vec<StrokePoint> = Vec::new();
    let mut i: usize = 0;
    while i < points.len()
        invariant
            i <= points@.len(),
            r@ == points@.take(i as int).map_values(|p: cl::StrokePoint| spec_from_wire(p)),
        decreases points@.len() - i,
    {
        r.push(from_wire(points[i]));
        assert(r@ =~= points@.take(i + 1).map_values(|p: cl::StrokePoint| spec_from_wire(p)));
        i += 1;
    }
    assert(points@.take(i as int) =~= points@);
    r
}

/// Whether `text` begins with `prefix`.
pub fn has_prefix(text: &str, prefix: &str) -> (r: bool)
    ensures
        r == prefix@.is_prefix_of(text@),
{
    let n = prefix.unicode_len();
    if text.unicode_len() < n {
        return false;
    }
    let mut i: usize = 0;
    while i < n
        invariant
            i <= n,
            n == prefix@.len(),
            n <= text@.len(),
            forall|j: int| 0 <= j < i ==> text@[j] == prefix@[j],
        decreases n - i,
    {
        if text.get_char(i) != prefix.get_char(i) {
            return false;
        }
        i += 1;
    }
    assert(text@.subrange(0, n as int) =~= prefix@);
    true
}

impl Peer {
    /// The invariant of the representation.
    pub closed spec fn wf(&self) -> bool {
        self.mates.wf()
    }

    /// A peer with the given nickname, which the tag of this program
    /// precedes.
    fn with_nickname(nickname: &str, is_host: bool) -> (peer: Peer)
        ensures
            peer.wf(),
            peer@ == PeerView::fresh(nickname@, is_host),
    {
        let peer = Peer {
            is_host,
            is_relayed: false,
            nickname: String::from_str("[tWHD!] ").concat(nickname),
            room_id: None,
            mates: AddressMap::new(),
            host: None,
        };
        assert(peer@.mates =~= Map::<Address, MateView>::empty());
        peer
    }

    /// A peer that hosts a new room, and the request for the room that it
    /// sends to the broker first.
    pub fn host(nickname: &str) -> (r: (Peer, mm::Packet))
        ensures
            r.0.wf(),
            r.0@ == PeerView::fresh(nickname@, true),
            r.1@ == mm::PacketView::Host,
    {
        (Peer::with_nickname(nickname, true), mm::Packet::Host)
    }

    /// A peer that hosts a new room under the identifier `room_id`, and the
    /// request for the room that it sends to the broker first.
    pub fn whd_host_with_custom_id(nickname: &str, room_id: u32) -> (r: (Peer, mm::Packet))
        ensures
            r.0.wf(),
            r.0@ == PeerView::fresh(nickname@, true),
            r.1@ == mm::PacketView::WallhackDHostWithCustomRoomId(room_id),
    {
        (
            Peer::with_nickname(nickname, true),
            mm::Packet::WallhackDHostWithCustomRoomId(room_id),
        )
    }

    /// A peer that joins the room `room_id`, and the request for the host
    /// of the room that it sends to the broker first.
    pub fn join(nickname: &str, room_id: u32) -> (r: (Peer, mm::Packet))
        ensures
            r.0.wf(),
            r.0@ == PeerView::fresh(nickname@, false),
            r.1@ == mm::PacketView::GetHost(room_id),
    {
        (Peer::with_nickname(nickname, false), mm::Packet::GetHost(room_id))
    }

    /// The packet `packet` for the participant `to`, or for all
    /// participants.
    fn send(&self, to: Option<Address>, packet: cl::Packet) -> (out: Outbound)
        ensures
            out@ == relay(to, packet@),
    {
        Outbound::Relay(to, packet)
    }

    /// The introduction to the participant at `to`, or to all participants.
    fn say_hello(&self, to: Option<Address>) -> (out: Outbound)
        ensures
            out@ == self@.hello(to),
    {
        self.send(to, cl::Packet::Hello(self.nickname.clone()))
    }

    /// Registers the participant at `addr` under `nickname`.
    fn add_mate(&mut self, addr: Address, nickname: String, now: u64)
        requires
            old(self).wf(),
        ensures
            final(self).wf(),
            final(self)@ == old(self)@.add_mate(addr, nickname@, now),
    {
        self.mates.insert(
            addr,
            Mate {
                cursor: Point { x: 0, y: 0 },
                cursor_prev: Point { x: 0, y: 0 },
                last_cursor: now,
                nickname,
                brush_size: DEFAULT_BRUSH_SIZE,
            },
        );
        assert(self@.mates =~= old(self)@.mates.insert(addr, new_mate(nickname@, now)));
    }

    /// Moves the cursor of the participant at `addr` to `to`, coming from
    /// `from`, if the participant is registered.
    fn move_cursor(&mut self, addr: Address, from: Point, to: Point, now: u64)
        requires
            old(self).wf(),
        ensures
            final(self).wf(),
            final(self)@ == old(self)@.move_cursor(addr, from, to, now),
    {
        let moved = match self.mates.get(addr) {
            Some(mate) => Some(
                Mate {
                    cursor_prev: from,
                    cursor: to,
                    last_cursor: now,
                    nickname: mate.nickname.clone(),
                    brush_size: mate.brush_size,
                },
            ),
            None => None,
        };
        match moved {
            Some(mate) => {
                self.mates.insert(addr, mate);
                assert(self@.mates =~= old(self)@.move_cursor(addr, from, to, now).mates);
            },
            None => {},
        }
    }

    /// Reacts to the payload `packet` that the participant at `sender_addr`
    /// has relayed, at the time `now`.
    pub fn decode_payload(&mut self, sender_addr: Address, packet: cl::Packet, now: u64) -> (r:
        Reaction)
        requires
            old(self).wf(),
        ensures
            final(self).wf(),
            final(self)@ == old(self)@.after_payload(sender_addr, packet@, now),
            r@ == old(self)@.payload_reaction(sender_addr, packet@),
    {
        let ghost before = self@;
        let mut outbound: Vec<Outbound> = Vec::new();
        let message = match packet {
            cl::Packet::Hello(nickname) => {
                outbound.push(self.send(Some(sender_addr), cl::Packet::HiThere(self.nickname.clone())));
                outbound.push(self.send(Some(sender_addr), cl::Packet::Version(cl::PROTOCOL_VERSION)));
                self.add_mate(sender_addr, nickname.clone(), now);
                Some(Message::Joined(nickname, if self.is_host { Some(sender_addr) } else { None }))
            },
            cl::Packet::HiThere(nickname) => {
                self.add_mate(sender_addr, nickname, now);
                None
            },
            cl::Packet::Cursor(x, y, brush_size) => {
                let moved = match self.mates.get(sender_addr) {
                    Some(mate) => Some(
                        Mate {
                            cursor_prev: mate.cursor,
                            cursor: Point { x, y },
                            last_cursor: now,
                            nickname: mate.nickname.clone(),
                            brush_size,
                        },
                    ),
                    None => None,
                };
                match moved {
                    Some(mate) => {
                        self.mates.insert(sender_addr, mate);
                        assert(self@.mates =~= before.after_payload(sender_addr, packet@, now).mates);
                    },
                    None => {},
                }
                None
            },
            cl::Packet::Stroke(points) => {
                let n = points.len();
                if n > 0 {
                    let first = from_wire(points[0]).point;
                    let last = from_wire(points[n - 1]).point;
                    self.move_cursor(sender_addr, first, last, now);
                }
                Some(Message::Stroke(stroke_from_wire(&points)))
            },
            cl::Packet::Reserved => None,
            cl::Packet::Version(version) => {
                if cl::compatible_with(version) {
                    None
                } else {
                    Some(Message::Error(String::from_str("Client is too old.")))
                }
            },
            cl::Packet::ChunkPositions(positions) => Some(Message::ChunkPositions(positions)),
            cl::Packet::GetChunks(positions) => Some(Message::GetChunks(sender_addr, positions)),
            cl::Packet::Chunks(chunks) => Some(Message::Chunks(chunks)),
            cl::Packet::WHDChatMessage(text) => Some(Message::WHDChatMessage(text)),
        };
        let r = Reaction { message, outbound };
        assert(r@.outbound =~= before.payload_reaction(sender_addr, packet@).outbound);
        r
    }

    /// Reacts to the packet `packet` of the broker at the time `now`, where
    /// `decoded` is what the payload of a relayed packet decodes to, or
    /// `None` if it does not decode.
    pub fn next_packet(&mut self, packet: mm::Packet, decoded: Option<cl::Packet>, now: u64) -> (r:
        Reaction)
        requires
            old(self).wf(),
        ensures
            final(self).wf(),
            final(self)@ == old(self)@.after_packet(packet@, decoded_view(decoded), now),
            r@ == old(self)@.packet_reaction(packet@, decoded_view(decoded)),
    {
        let ghost before = self@;
        let ghost expected = before.packet_reaction(packet@, decoded_view(decoded));
        match packet {
            mm::Packet::RoomId(id) => {
                self.room_id = Some(id);
                let mut outbound: Vec<Outbound> = Vec::new();
                outbound.push(Outbound::Matchmaker(mm::Packet::RequestRelay(None)));
                outbound.push(self.say_hello(None));
                let r = Reaction { message: Some(Message::Connected), outbound };
                assert(r@.outbound =~= expected.outbound);
                r
            },
            mm::Packet::HostAddress(addr) => {
                self.host = Some(addr);
                self.is_relayed = true;
                let mut outbound: Vec<Outbound> = Vec::new();
                outbound.push(Outbound::Matchmaker(mm::Packet::RequestRelay(Some(addr))));
                outbound.push(self.say_hello(Some(addr)));
                let r = Reaction { message: Some(Message::Connected), outbound };
                assert(r@.outbound =~= expected.outbound);
                r
            },
            mm::Packet::Relayed(from, payload) => {
                if payload.len() == 0 {
                    let mut outbound: Vec<Outbound> = Vec::new();
                    outbound.push(self.say_hello(None));
                    let r = Reaction { message: None, outbound };
                    assert(r@.outbound =~= expected.outbound);
                    r
                } else {
                    match decoded {
                        Some(inner) => self.decode_payload(from, inner, now),
                        None => {
                            let r = Reaction { message: None, outbound: Vec::new() };
                            assert(r@.outbound =~= expected.outbound);
                            r
                        },
                    }
                }
            },
            mm::Packet::Disconnected(addr) => {
                let left = self.mates.remove(addr);
                assert(self@.mates =~= before.mates.remove(addr));
                let r = Reaction {
                    message: match left {
                        Some(mate) => Some(Message::Left(mate.nickname)),
                        None => None,
                    },
                    outbound: Vec::new(),
                };
                assert(r@.outbound =~= expected.outbound);
                r
            },
            mm::Packet::Error(text) => {
                let r = Reaction { message: Some(Message::Error(text)), outbound: Vec::new() };
                assert(r@.outbound =~= expected.outbound);
                r
            },
            _ => {
                let r = Reaction { message: None, outbound: Vec::new() };
                assert(r@.outbound =~= expected.outbound);
                r
            },
        }
    }

    /// The nickname of this peer, with the tag that precedes it.
    pub fn nickname(&self) -> (r: &str)
        ensures
            r@ == self@.nickname,
    {
        self.nickname.as_str()
    }

    /// Whether this peer is the host.
    pub fn is_host(&self) -> (r: bool)
        ensures
            r == self@.is_host,
    {
        self.is_host
    }

    /// Whether this peer reaches the others through the broker.
    pub fn is_relayed(&self) -> (r: bool)
        ensures
            r == self@.is_relayed,
    {
        self.is_relayed
    }

    /// The identifier of the room, or `None` as long as the broker has not
    /// told it.
    pub fn room_id(&self) -> (r: Option<u32>)
        ensures
            r == self@.room_id,
    {
        self.room_id
    }

    /// The address of the host, or `None` as long as the broker has not
    /// told it.
    pub fn host_addr(&self) -> (r: Option<Address>)
        ensures
            r == self@.host,
    {
        self.host
    }

    /// The other participants of the room.
    pub fn mates(&self) -> (r: &AddressMap<Mate>)
        requires
            self.wf(),
        ensures
            r.wf(),
            mates_view(r@) == self@.mates,
    {
        &self.mates
    }

    /// The addresses of the other participants, in the order in which they
    /// were first registered.
    pub closed spec fn mate_order(&self) -> Seq<Address> {
        self.mates.entries().map_values(|e: (Address, Mate)| e.0)
    }

    /// Every participant is listed once in the order of the participants.
    pub proof fn lemma_mate_order(&self)
        requires
            self.wf(),
        ensures
            self.mate_order().no_duplicates(),
            forall|addr: Address|
                self.mate_order().contains(addr) <==> #[trigger] self@.mates.contains_key(addr),
    {
        self.mates.lemma_view();
        let entries = self.mates.entries();
        let order = self.mate_order();
        assert forall|addr: Address|
            order.contains(addr) <==> #[trigger] self@.mates.contains_key(addr) by {
            if order.contains(addr) {
                let i = choose|i: int| 0 <= i < order.len() && order[i] == addr;
                assert(entries[i].0 == addr);
            }
            if self@.mates.contains_key(addr) {
                let i = position_of(entries, addr);
                assert(order[i] == addr);
            }
        }
    }

    /// The packet that tells all participants where the cursor of this peer
    /// is, and how wide its brush.
    pub fn send_cursor(&self, cursor: Point, brush_size: i16) -> (out: Outbound)
        ensures
            out@ == relay(None, cl::PacketView::Cursor(cursor.x, cursor.y, brush_size)),
    {
        self.send(None, cl::Packet::Cursor(cursor.x, cursor.y, brush_size))
    }

    /// The packet that tells all participants of a stroke of this peer.
    pub fn send_stroke(&self, points: &Vec<StrokePoint>) -> (out: Outbound)
        ensures
            out@ == relay(
                None,
                cl::PacketView::Stroke(points@.map_values(|p: StrokePoint| spec_to_wire(p))),
            ),
    {
        let mut wire: Vec<cl::StrokePoint> = Vec::new();
        let mut i: usize = 0;
        while i < points.len()
            invariant
                i <= points@.len(),
                wire@ == points@.take(i as int).map_values(|p: StrokePoint| spec_to_wire(p)),
            decreases points@.len() - i,
        {
            wire.push(to_wire(points[i]));
            assert(wire@ =~= points@.take(i + 1).map_values(|p: StrokePoint| spec_to_wire(p)));
            i += 1;
        }
        assert(points@.take(i as int) =~= points@);
        self.send(None, cl::Packet::Stroke(wire))
    }

    /// The packet that tells the participant at `to` which chunks this peer
    /// has.
    pub fn send_chunk_positions(&self, to: Address, positions: Vec<ChunkPosition>) -> (out:
        Outbound)
        ensures
            out@ == relay(Some(to), cl::PacketView::ChunkPositions(positions@)),
    {
        self.send(Some(to), cl::Packet::ChunkPositions(positions))
    }

    /// The packet that asks the host for the chunks at `positions`. Only a
    /// peer that knows the address of its host can ask.
    pub fn download_chunks(&self, positions: Vec<ChunkPosition>) -> (out: Outbound)
        requires
            self@.host is Some,
        ensures
            out@ == relay(self@.host, cl::PacketView::GetChunks(positions@)),
    {
        self.send(self.host, cl::Packet::GetChunks(positions))
    }

    /// The packet that hands the chunks `chunks` to the participant at `to`.
    pub fn send_chunks(&self, to: Address, chunks: Vec<(ChunkPosition, Vec<u8>)>) -> (out:
        Outbound)
        ensures
            out@ == relay(Some(to), cl::PacketView::Chunks(cl::chunks_view(chunks@))),
    {
        self.send(Some(to), cl::Packet::Chunks(chunks))
    }

    /// The packets that hand the chat message `text` to every participant
    /// whose nickname begins with the chat tag, in the order of the
    /// participants.
    pub fn whd_send_chat_message(&self, text: &String) -> (out: Vec<Outbound>)
        requires
            self.wf(),
        ensures
            outbound_views(out@) == chat_to(
                self.mate_order().filter(takes_chat(self@.mates)),
                text@,
            ),
    {
        let ghost order = self.mate_order();
        let ghost wanted = takes_chat(self@.mates);
        let mut out: Vec<Outbound> = Vec::new();
        let n = self.mates.len();
        let mut i: usize = 0;
        while i < n
            invariant
                self.wf(),
                i <= n,
                n == order.len(),
                order == self.mate_order(),
                wanted == takes_chat(self@.mates),
                outbound_views(out@) == chat_to(order.take(i as int).filter(wanted), text@),
            decreases n - i,
        {
            let addr = self.mates.key_at(i);
            let mate = self.mates.value_at(i);
            proof {
                lemma_filter_step(order, i as int, wanted);
                assert(order[i as int] == addr);
                assert(self@.mates[addr] == mate@);
            }
            if has_prefix(mate.nickname.as_str(), "[tWHD!") {
                let ghost before = outbound_views(out@);
                out.push(self.send(Some(addr), cl::Packet::WHDChatMessage(text.clone())));
                assert(outbound_views(out@) =~= before.push(
                    relay(Some(addr), cl::PacketView::WHDChatMessage(text@)),
                ));
                assert(chat_to(order.take(i as int).filter(wanted).push(addr), text@)
                    =~= chat_to(order.take(i as int).filter(wanted), text@).push(
                    relay(Some(addr), cl::PacketView::WHDChatMessage(text@)),
                ));
            }
            i += 1;
        }
        assert(order.take(i as int) =~= order);
        out
    }

    /// Reacts to the packets `received` in one tick, taken in their order,
    /// at the time `now`. Each comes with what its payload decodes to, if it
    /// is a relayed packet whose payload decodes.
    pub fn tick(&mut self, received: Vec<(mm::Packet, Option<cl::Packet>)>, now: u64) -> (r:
        Messages)
        requires
            old(self).wf(),
        ensures
            final(self).wf(),
            final(self)@ == old(self)@.after_all(received_view(received@), now),
            r@ == old(self)@.all_reactions(received_view(received@), now),
    {
        let ghost start = self@;
        let ghost items = received@;
        let ghost all = received_view(items);
        let mut messages: Vec<Message> = Vec::new();
        let mut outbound: Vec<Outbound> = Vec::new();
        proof {
            assert(all.take(0) =~= Seq::empty());
            let none = (Messages { messages, outbound })@;
            assert(none.messages =~= Seq::empty());
            assert(none.outbound =~= Seq::empty());
        }
        for item in it: received
            invariant
                self.wf(),
                it.seq() == items,
                all == received_view(items),
                self@ == start.after_all(all.take(it.index() as int), now),
                (Messages { messages, outbound })@ == start.all_reactions(
                    all.take(it.index() as int),
                    now,
                ),
        {
            let ghost done = it.index() as int;
            assert(item == items[done]);
            let reaction = self.next_packet(item.0, item.1, now);
            let mut sends = reaction.outbound;
            outbound.append(&mut sends);
            match reaction.message {
                Some(message) => {
                    messages.push(message);
                },
                None => {},
            }
            proof {
                assert(all.take(done + 1).drop_last() =~= all.take(done));
                assert(all.take(done + 1).last() == all[done]);
                assert(all[done] == (item.0@, decoded_view(item.1)));
                let after = (Messages { messages, outbound })@;
                let expected = start.all_reactions(all.take(done + 1), now);
                assert(after.outbound =~= expected.outbound);
                assert(after.messages =~= expected.messages);
            }
        }
        assert(all.take(all.len() as int) =~= all);
        Messages { messages, outbound }
    }

}

/// What was decoded, as a mathematical value.
pub open spec fn decoded_view(decoded: Option<cl::Packet>) -> Option<cl::PacketView> {
    match decoded {
        Some(packet) => Some(packet@),
        None => None,
    }
}

} // verus!
