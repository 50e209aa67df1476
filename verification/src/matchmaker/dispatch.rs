//! What the broker answers to a packet of a client.

use crate::matchmaker::model::{lemma_allocate_wf, lemma_bind_wf, lemma_prune_wf};
use crate::matchmaker::model::{Connection, Error, Registry, MAX_ROOM_ID};
use crate::matchmaker::registry::{whrc_custom_id_host, Matchmaker, Outgoing, OutgoingView};
use crate::protocol::matchmaker::{is_request, Packet, PacketView};
use vstd::prelude::*;

verus! {

/// A list of outgoing packets as mathematical values.
pub open spec fn views(out: Seq<Outgoing>) -> Seq<OutgoingView> {
    out.map_values(|o: Outgoing| o@)
}

/// The packet `packet` for the connection `conn` alone.
pub open spec fn to_one(conn: Connection, packet: PacketView) -> OutgoingView {
    OutgoingView { targets: seq![conn], packet }
}

/// The notice that tells `conn` of the failure `e`.
pub open spec fn refusal(conn: Connection, e: Error) -> Seq<OutgoingView> {
    seq![to_one(conn, PacketView::Error(e.spec_message()))]
}

/// The answer of the broker: the registry after the packet, and the packets
/// to write, or the failure that ends the connection.
pub struct Answer {
    pub next: Registry,
    pub out: Result<Seq<OutgoingView>, Error>,
}

/// Whether `drawn` may be the outcome of a random draw in the registry
/// `reg`: an identifier that was drawn is within the range and free.
pub open spec fn may_draw(reg: Registry, drawn: Option<u32>) -> bool {
    match drawn {
        Some(id) => id <= MAX_ROOM_ID && !reg.rooms.contains_key(id),
        None => true,
    }
}

impl Registry {
    /// What the broker answers to the packet `packet` of the connection
    /// `conn`, where `drawn` is the free identifier that was drawn at random
    /// for a request to host, if any.
    ///
    /// A failure of an operation is reported to `conn` in an error packet and
    /// leaves the registry as it was. A packet that is no request ends the
    /// connection.
    pub open spec fn answer(self, conn: Connection, packet: PacketView, drawn: Option<u32>)
        -> Answer {
        match packet {
            PacketView::Host => match self.draw_outcome(drawn) {
                Ok(id) => Answer {
                    next: self.allocate(conn, id),
                    out: Ok(seq![to_one(conn, PacketView::RoomId(id))]),
                },
                Err(e) => Answer { next: self, out: Ok(refusal(conn, e)) },
            },
            PacketView::WallhackDHostWithCustomRoomId(id) => match self.claim(id) {
                Ok(_) => Answer {
                    next: self.allocate(conn, id),
                    out: Ok(seq![to_one(conn, PacketView::RoomId(id))]),
                },
                Err(e) => Answer { next: self, out: Ok(refusal(conn, e)) },
            },
            PacketView::GetHost(id) => match self.resolve(id) {
                Ok(host) => Answer {
                    next: self,
                    out: Ok(
                        seq![
                            to_one(host, PacketView::ClientAddress(conn.addr)),
                            to_one(conn, PacketView::HostAddress(host.addr)),
                        ],
                    ),
                },
                Err(e) => Answer { next: self, out: Ok(refusal(conn, e)) },
            },
            PacketView::RequestRelay(host) => match self.admission(conn, host) {
                Ok(id) => Answer {
                    next: self.bind(conn, id),
                    out: Ok(seq![to_one(conn, PacketView::Relayed(conn.addr, Seq::empty()))]),
                },
                Err(e) => Answer { next: self, out: Ok(refusal(conn, e)) },
            },
            PacketView::Relay(to, data) => match self.origin_room(conn) {
                Ok(id) => Answer {
                    next: self.prune(id),
                    out: Ok(
                        seq![
                            OutgoingView {
                                targets: self.recipients(id, conn, to),
                                packet: PacketView::Relayed(conn.addr, data),
                            },
                        ],
                    ),
                },
                Err(e) => Answer { next: self, out: Ok(refusal(conn, e)) },
            },
            _ => Answer { next: self, out: Err(Error::InvalidPacket) },
        }
    }
}

/// Whether the executable result `r` stands for the answer `out`.
pub open spec fn same_answer(r: Result<Vec<Outgoing>, Error>, out: Result<Seq<OutgoingView>, Error>)
    -> bool {
    match r {
        Ok(list) => out == Ok::<Seq<OutgoingView>, Error>(views(list@)),
        Err(e) => out == Err::<Seq<OutgoingView>, Error>(e),
    }
}

/// The packet `packet` for the connection `conn` alone.
fn send_packet(conn: Connection, packet: Packet) -> (out: Outgoing)
    ensures
        out@ == to_one(conn, packet@),
{
    let mut targets: Vec<Connection> = Vec::new();
    targets.push(conn);
    assert(targets@ =~= seq![conn]);
    Outgoing { targets, packet }
}

/// The notice that tells `conn` of the failure `e`.
fn send_error(conn: Connection, e: Error) -> (out: Vec<Outgoing>)
    ensures
        views(out@) == refusal(conn, e),
{
    let mut out: Vec<Outgoing> = Vec::new();
    out.push(send_packet(conn, Packet::Error(e.message())));
    assert(views(out@) =~= refusal(conn, e));
    out
}

/// A list with the one outgoing packet `first`.
fn single(first: Outgoing) -> (out: Vec<Outgoing>)
    ensures
        views(out@) == seq![first@],
{
    let mut out: Vec<Outgoing> = Vec::new();
    out.push(first);
    assert(views(out@) =~= seq![first@]);
    out
}

impl Matchmaker {
    /// Answers the packet `packet` of the connection `conn`, where `drawn` is
    /// the room identifier drawn for a request to host. An identifier that
    /// is not free counts as none.
    pub fn dispatch(&mut self, conn: Connection, packet: Packet, drawn: Option<u32>) -> (r: Result<
        Vec<Outgoing>,
        Error,
    >)
        requires
            old(self).wf(),
        ensures
            final(self).wf(),
            final(self)@ == old(self)@.answer(conn, packet@, drawn).next,
            same_answer(r, old(self)@.answer(conn, packet@, drawn).out),
    {
        match packet {
            Packet::Host => {
                match self.host_drawn(conn, drawn) {
                    Ok(id) => Ok(single(send_packet(conn, Packet::RoomId(id)))),
                    Err(e) => Ok(send_error(conn, e)),
                }
            },
            Packet::WallhackDHostWithCustomRoomId(id) => {
                match whrc_custom_id_host(self, conn, id) {
                    Ok(id) => Ok(single(send_packet(conn, Packet::RoomId(id)))),
                    Err(e) => Ok(send_error(conn, e)),
                }
            },
            Packet::GetHost(id) => {
                match self.join(id) {
                    Ok(host) => {
                        let mut out: Vec<Outgoing> = Vec::new();
                        out.push(send_packet(host, Packet::ClientAddress(conn.addr)));
                        out.push(send_packet(conn, Packet::HostAddress(host.addr)));
                        assert(views(out@) =~= seq![
                            to_one(host, PacketView::ClientAddress(conn.addr)),
                            to_one(conn, PacketView::HostAddress(host.addr)),
                        ]);
                        Ok(out)
                    },
                    Err(e) => Ok(send_error(conn, e)),
                }
            },
            Packet::RequestRelay(host) => {
                match self.add_relay(conn, host) {
                    Ok(_) => {
                        let ready = Packet::Relayed(conn.addr, Vec::new());
                        assert(ready@ == PacketView::Relayed(conn.addr, Seq::empty()));
                        Ok(single(send_packet(conn, ready)))
                    },
                    Err(e) => Ok(send_error(conn, e)),
                }
            },
            Packet::Relay(to, data) => {
                match self.relay(conn, to, data) {
                    Ok(out) => Ok(single(out)),
                    Err(e) => Ok(send_error(conn, e)),
                }
            },
            _ => Err(Error::InvalidPacket),
        }
    }

    /// Answers the packet `packet` of the connection `conn`. For a request to
    /// host, a room identifier is drawn at random first.
    ///
    /// The answer is that of [`Matchmaker::dispatch`] for some outcome of the
    /// draw; for every other packet the draw plays no part. For a request to
    /// host an identifier is drawn for certain as long as none that can be
    /// drawn is taken, and none once all of them are taken.
    pub fn incoming_packet(&mut self, conn: Connection, packet: Packet) -> (r: Result<
        Vec<Outgoing>,
        Error,
    >)
        requires
            old(self).wf(),
        ensures
            final(self).wf(),
            exists|drawn: Option<u32>|
                {
                    &&& may_draw(old(self)@, drawn)
                    &&& old(self)@.exhausted() ==> drawn is None
                    &&& (packet@ is Host && old(self)@.untaken()) ==> drawn is Some
                    &&& final(self)@ == (#[trigger] old(self)@.answer(conn, packet@, drawn)).next
                    &&& same_answer(r, old(self)@.answer(conn, packet@, drawn).out)
                },
            !(packet@ is Host) ==> {
                &&& final(self)@ == old(self)@.answer(conn, packet@, None).next
                &&& same_answer(r, old(self)@.answer(conn, packet@, None).out)
            },
    {
        let drawn = match packet {
            Packet::Host => self.find_free_room_id(),
            _ => None,
        };
        let r = self.dispatch(conn, packet, drawn);
        assert(final(self)@ == old(self)@.answer(conn, packet@, drawn).next);
        r
    }
}

/// Every answer keeps the invariant of the registry.
pub proof fn law_answer_keeps_invariant(
    reg: Registry,
    conn: Connection,
    packet: PacketView,
    drawn: Option<u32>,
)
    requires
        reg.wf(),
    ensures
        reg.answer(conn, packet, drawn).next.wf(),
{
    match packet {
        PacketView::Host => {
            match reg.draw_outcome(drawn) {
                Ok(id) => lemma_allocate_wf(reg, conn, id),
                Err(_) => {},
            }
        },
        PacketView::WallhackDHostWithCustomRoomId(id) => {
            if !reg.rooms.contains_key(id) {
                lemma_allocate_wf(reg, conn, id);
            }
        },
        PacketView::RequestRelay(host) => {
            match reg.admission(conn, host) {
                Ok(id) => lemma_bind_wf(reg, conn, id),
                Err(_) => {},
            }
        },
        PacketView::Relay(to, data) => {
            match reg.origin_room(conn) {
                Ok(id) => lemma_prune_wf(reg, id),
                Err(_) => {},
            }
        },
        _ => {},
    }
}

/// A packet that is no request of a client ends the connection; every
/// request is answered.
pub proof fn law_fatal_packets(reg: Registry, conn: Connection, packet: PacketView, drawn: Option<
    u32,
>)
    ensures
        reg.answer(conn, packet, drawn).out is Err <==> !is_request(packet),
        reg.answer(conn, packet, drawn).out is Err ==> reg.answer(conn, packet, drawn).next == reg,
{
}

} // verus!
